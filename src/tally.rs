use vstd::prelude::*;
use crate::policy::{Action, ActionView};

verus! {

#[derive(Clone, Copy, Debug, PartialEq, Eq, Structural)]
pub enum ActionKind {
    Rename,
    Move,
    Delete,
}

pub open spec fn kind_of(a: ActionView) -> ActionKind {
    match a {
        ActionView::Rename { .. } => ActionKind::Rename,
        ActionView::Move { .. } => ActionKind::Move,
        ActionView::Delete { .. } => ActionKind::Delete,
    }
}

impl Action {
    pub fn kind(&self) -> (r: ActionKind)
        ensures
            r == kind_of(self@),
    {
        match self {
            Action::Rename { .. } => ActionKind::Rename,
            Action::Move { .. } => ActionKind::Move,
            Action::Delete { .. } => ActionKind::Delete,
        }
    }
}

/// How many of the first `n` actions are of kind `k` and succeeded.
pub open spec fn confirmed(actions: Seq<ActionView>, ok: Seq<bool>, k: ActionKind, n: int) -> nat
    decreases n,
{
    if n <= 0 {
        0
    } else {
        confirmed(actions, ok, k, n - 1) + if ok[n - 1] && kind_of(actions[n - 1]) == k {
            1nat
        } else {
            0nat
        }
    }
}

/// The outcome of a run: how many files were moved, deleted and renamed.
#[derive(Clone, Copy, Debug, PartialEq, Eq, Structural)]
pub struct RunCounters {
    pub moved: usize,
    pub deleted: usize,
    pub renamed: usize,
}

impl RunCounters {
    pub open spec fn count(self, k: ActionKind) -> int {
        match k {
            ActionKind::Rename => self.renamed as int,
            ActionKind::Move => self.moved as int,
            ActionKind::Delete => self.deleted as int,
        }
    }

    pub fn new() -> (r: RunCounters)
        ensures
            r.moved == 0 && r.deleted == 0 && r.renamed == 0,
    {
        RunCounters { moved: 0, deleted: 0, renamed: 0 }
    }

    /// Accounts for one action: its counter grows by one if it succeeded.
    pub fn record(&mut self, action: &Action, succeeded: bool)
        requires
            succeeded ==> old(self).count(kind_of(action@)) < usize::MAX,
        ensures
            forall|k: ActionKind| #[trigger] final(self).count(k) == old(self).count(k) + if succeeded
                && k == kind_of(action@) {
                1int
            } else {
                0int
            },
    {
        if succeeded {
            match action.kind() {
                ActionKind::Rename => self.renamed = self.renamed + 1,
                ActionKind::Move => self.moved = self.moved + 1,
                ActionKind::Delete => self.deleted = self.deleted + 1,
            }
        }
    }

    /// Adds the tally of another unit of work.
    pub fn merge(&mut self, other: &RunCounters)
        requires
            old(self).moved + other.moved <= usize::MAX,
            old(self).deleted + other.deleted <= usize::MAX,
            old(self).renamed + other.renamed <= usize::MAX,
        ensures
            final(self).moved == old(self).moved + other.moved,
            final(self).deleted == old(self).deleted + other.deleted,
            final(self).renamed == old(self).renamed + other.renamed,
    {
        self.moved = self.moved + other.moved;
        self.deleted = self.deleted + other.deleted;
        self.renamed = self.renamed + other.renamed;
    }
}

proof fn lemma_confirmed_bound(actions: Seq<ActionView>, ok: Seq<bool>, k: ActionKind, n: int)
    requires
        0 <= n,
    ensures
        confirmed(actions, ok, k, n) <= n,
    decreases n,
{
    if n > 0 {
        lemma_confirmed_bound(actions, ok, k, n - 1);
    }
}

/// The counters of a run whose action `i` succeeded exactly when `succeeded[i]`.
pub fn tally(actions: &Vec<Action>, succeeded: &Vec<bool>) -> (r: RunCounters)
    requires
        actions.len() == succeeded.len(),
    ensures
        forall|k: ActionKind| #[trigger] r.count(k) == confirmed(
            actions@.map_values(|a: Action| a@),
            succeeded@,
            k,
            actions.len() as int,
        ),
{
    let ghost v = actions@.map_values(|a: Action| a@);
    let mut r = RunCounters::new();
    let mut i: usize = 0;
    while i < actions.len()
        invariant
            v == actions@.map_values(|a: Action| a@),
            actions.len() == succeeded.len(),
            i <= actions.len(),
            forall|k: ActionKind| #[trigger] r.count(k) == confirmed(v, succeeded@, k, i as int),
        decreases actions.len() - i,
    {
        proof {
            lemma_confirmed_bound(v, succeeded@, kind_of(v[i as int]), i as int);
            assert(r.count(kind_of(actions@[i as int]@)) == confirmed(v, succeeded@, kind_of(v[i as int]), i as int));
        }
        r.record(&actions[i], succeeded[i]);
        i += 1;
    }
    r
}

/// A failed action changes no count but that of its own kind, and that one by
/// exactly the success it did not have: the failure of one file leaves the
/// counts of every other file as they were.
pub proof fn law_failure_is_local(actions: Seq<ActionView>, ok: Seq<bool>, j: int)
    requires
        actions.len() == ok.len(),
        0 <= j < ok.len(),
    ensures
        forall|k: ActionKind| k != kind_of(actions[j]) ==> #[trigger] confirmed(actions, ok.update(j, false), k, actions.len() as int)
            == confirmed(actions, ok, k, actions.len() as int),
        confirmed(actions, ok, kind_of(actions[j]), actions.len() as int) == confirmed(
            actions,
            ok.update(j, false),
            kind_of(actions[j]),
            actions.len() as int,
        ) + if ok[j] {
            1nat
        } else {
            0nat
        },
{
    assert forall|k: ActionKind| true implies confirmed(actions, ok, k, actions.len() as int) == confirmed(
        actions,
        ok.update(j, false),
        k,
        actions.len() as int,
    ) + if ok[j] && kind_of(actions[j]) == k {
        1nat
    } else {
        0nat
    } by {
        lemma_failure_prefix(actions, ok, j, k, actions.len() as int);
    }
}

proof fn lemma_failure_prefix(actions: Seq<ActionView>, ok: Seq<bool>, j: int, k: ActionKind, n: int)
    requires
        actions.len() == ok.len(),
        0 <= j < ok.len(),
        0 <= n <= ok.len(),
    ensures
        confirmed(actions, ok, k, n) == confirmed(actions, ok.update(j, false), k, n) + if j < n
            && ok[j] && kind_of(actions[j]) == k {
            1nat
        } else {
            0nat
        },
    decreases n,
{
    if n > 0 {
        lemma_failure_prefix(actions, ok, j, k, n - 1);
    }
}

} // verus!
