use vstd::prelude::*;
use crate::grouping::{DirectoryGroups, DuplicateGroup, FileRecord, RecordView};

verus! {

/// The options of a run that the resolution reads.
pub struct Settings {
    /// Follow subdirectories.
    pub recursive: bool,
    /// Delete disposed revisions instead of moving them.
    pub purge: bool,
    /// Never rename the kept revision to its canonical name.
    pub keep_names: bool,
    /// Where disposed revisions are moved; ends with `/`.
    pub holding_dir: String,
}

/// A file system action on one revision.
pub enum Action {
    /// Rename `source` to `target`, in the same directory.
    Rename { source: String, target: String },
    /// Create `target_dir` with its parents, then move `source` to `target` in it.
    Move { source: String, target_dir: String, target: String },
    /// Remove `source`.
    Delete { source: String },
}

pub enum ActionView {
    Rename { source: Seq<char>, target: Seq<char> },
    Move { source: Seq<char>, target_dir: Seq<char>, target: Seq<char> },
    Delete { source: Seq<char> },
}

impl View for Action {
    type V = ActionView;

    open spec fn view(&self) -> ActionView {
        match self {
            Action::Rename { source, target } => ActionView::Rename {
                source: source@,
                target: target@,
            },
            Action::Move { source, target_dir, target } => ActionView::Move {
                source: source@,
                target_dir: target_dir@,
                target: target@,
            },
            Action::Delete { source } => ActionView::Delete { source: source@ },
        }
    }
}

/// The path of a directory of the run, relative to where the run started.
pub open spec fn location(dir: Seq<char>) -> Seq<char> {
    seq!['.', '/'] + dir
}

pub open spec fn source_of(r: RecordView) -> Seq<char> {
    location(r.dir_path) + r.original_name
}

/// What becomes of a revision that is not kept: deleted under `purge`, else moved
/// below `holding`, to the same relative directory and under the same name.
pub open spec fn disposal(r: RecordView, purge: bool, holding: Seq<char>) -> ActionView {
    if purge {
        ActionView::Delete { source: source_of(r) }
    } else {
        ActionView::Move {
            source: source_of(r),
            target_dir: holding + r.dir_path,
            target: holding + r.dir_path + r.original_name,
        }
    }
}

/// Record `i` is the newest of `recs`; of equal timestamps, the one found last.
pub open spec fn is_newest(recs: Seq<RecordView>, i: int) -> bool {
    &&& 0 <= i < recs.len()
    &&& forall|j: int| 0 <= j < recs.len() ==> #[trigger] recs[j].timestamp.order_key() <= recs[i].timestamp.order_key()
    &&& forall|j: int| i < j < recs.len() ==> #[trigger] recs[j].timestamp.order_key() < recs[i].timestamp.order_key()
}

/// The group's revision `i` is renamed to the canonical name.
pub open spec fn renames(recs: Seq<RecordView>, i: int, canonical_exists: bool, keep_names: bool) -> bool {
    !canonical_exists && !keep_names && is_newest(recs, i)
}

/// The action for each revision of a group, in the order the group holds them.
pub open spec fn resolution(
    group: (Seq<char>, Seq<RecordView>),
    canonical_exists: bool,
    keep_names: bool,
    purge: bool,
    holding: Seq<char>,
) -> Seq<ActionView> {
    Seq::new(
        group.1.len(),
        |i: int|
            if renames(group.1, i, canonical_exists, keep_names) {
                ActionView::Rename {
                    source: source_of(group.1[i]),
                    target: location(group.1[i].dir_path) + group.0,
                }
            } else {
                disposal(group.1[i], purge, holding)
            },
    )
}

/// The default place for disposed revisions.
pub fn default_holding_dir() -> (r: String)
    ensures
        r@ == "./fhcleanup_to_del/"@,
{
    String::from_str("./fhcleanup_to_del/")
}

/// `dir` with a `/` at its end, unless it already ends with one.
pub fn normalize_dir(dir: String) -> (r: String)
    ensures
        r@ == if dir@.len() > 0 && dir@.last() == '/' { dir@ } else { dir@.push('/') },
{
    let n = dir.as_str().unicode_len();
    if n > 0 && dir.as_str().get_char(n - 1) == '/' {
        dir
    } else {
        let mut d = dir;
        proof {
            reveal_strlit("/");
        }
        d.append("/");
        d
    }
}

/// Path of directory `dir` of the run.
pub fn dir_location(dir: &String) -> (r: String)
    ensures
        r@ == location(dir@),
{
    proof {
        reveal_strlit("./");
    }
    let r = String::from_str("./");
    r.concat(dir.as_str())
}

fn path_in(dir: &String, name: &String) -> (r: String)
    ensures
        r@ == dir@ + name@,
{
    dir.clone().concat(name.as_str())
}

/// Position of the newest revision in a non-empty list.
pub fn newest_index(recs: &Vec<FileRecord>) -> (r: usize)
    requires
        recs.len() > 0,
        forall|j: int| 0 <= j < recs.len() ==> (#[trigger] recs@[j]).timestamp.digit_bounded(),
    ensures
        is_newest(recs@.map_values(|f: FileRecord| f@), r as int),
{
    let ghost v = recs@.map_values(|f: FileRecord| f@);
    let mut best: usize = 0;
    let mut best_key = recs[0].timestamp.key();
    let mut i: usize = 1;
    while i < recs.len()
        invariant
            v == recs@.map_values(|f: FileRecord| f@),
            forall|j: int| 0 <= j < recs.len() ==> (#[trigger] recs@[j]).timestamp.digit_bounded(),
            1 <= i <= recs.len(),
            best < i,
            best_key as int == v[best as int].timestamp.order_key(),
            forall|j: int| 0 <= j < i ==> #[trigger] v[j].timestamp.order_key() <= v[best as int].timestamp.order_key(),
            forall|j: int| best < j < i ==> #[trigger] v[j].timestamp.order_key() < v[best as int].timestamp.order_key(),
        decreases recs.len() - i,
    {
        let k = recs[i].timestamp.key();
        if k >= best_key {
            best = i;
            best_key = k;
        }
        i += 1;
    }
    best
}

/// The source path of a revision.
fn source_path(rec: &FileRecord) -> (r: String)
    ensures
        r@ == source_of(rec@),
{
    let loc = dir_location(&rec.dir_path);
    path_in(&loc, &rec.original_name)
}

/// Disposal of one revision under `settings`.
pub fn dispose(rec: &FileRecord, settings: &Settings) -> (r: Action)
    ensures
        r@ == disposal(rec@, settings.purge, settings.holding_dir@),
{
    let source = source_path(rec);
    if settings.purge {
        Action::Delete { source }
    } else {
        let target_dir = path_in(&settings.holding_dir, &rec.dir_path);
        let target = path_in(&target_dir, &rec.original_name);
        Action::Move { source, target_dir, target }
    }
}

/// Decides what becomes of each revision of a group: where no file of the
/// canonical name exists and names are not kept, the newest revision is renamed
/// to it; every other revision is disposed of.
pub fn resolve_group(group: &DuplicateGroup, canonical_exists: bool, settings: &Settings) -> (r: Vec<Action>)
    requires
        forall|j: int| 0 <= j < group.records.len() ==> (#[trigger] group.records@[j]).timestamp.digit_bounded(),
    ensures
        r@.map_values(|a: Action| a@) == resolution(
            group@,
            canonical_exists,
            settings.keep_names,
            settings.purge,
            settings.holding_dir@,
        ),
{
    let ghost spec_r = resolution(group@, canonical_exists, settings.keep_names, settings.purge, settings.holding_dir@);
    let ghost recs = group@.1;
    let n = group.records.len();
    let mut out: Vec<Action> = Vec::new();
    if n == 0 {
        assert(out@.map_values(|a: Action| a@) =~= spec_r);
        return out;
    }
    let newest = newest_index(&group.records);
    let rename_newest = !canonical_exists && !settings.keep_names;
    let mut i: usize = 0;
    while i < n
        invariant
            n == group.records.len(),
            recs == group@.1,
            is_newest(recs, newest as int),
            rename_newest == (!canonical_exists && !settings.keep_names),
            spec_r == resolution(group@, canonical_exists, settings.keep_names, settings.purge, settings.holding_dir@),
            i <= n,
            out.len() == i,
            forall|j: int| 0 <= j < i ==> (#[trigger] out@[j])@ == spec_r[j],
        decreases n - i,
    {
        let rec = &group.records[i];
        proof {
            assert(recs[i as int] == rec@);
            if is_newest(recs, i as int) {
                assert(i == newest) by {
                    if i < newest {
                        assert(recs[newest as int].timestamp.order_key() < recs[i as int].timestamp.order_key());
                    } else if i > newest {
                        assert(recs[i as int].timestamp.order_key() < recs[newest as int].timestamp.order_key());
                    }
                }
            }
        }
        if rename_newest && i == newest {
            let source = source_path(rec);
            let loc = dir_location(&rec.dir_path);
            let target = path_in(&loc, &group.canonical_name);
            out.push(Action::Rename { source, target });
        } else {
            out.push(dispose(rec, settings));
        }
        i += 1;
    }
    assert(out@.map_values(|a: Action| a@) =~= spec_r);
    out
}

/// The actions for a directory's groups, group after group; `exists[i]` tells
/// whether a file of group `i`'s canonical name is present.
pub open spec fn directory_resolution(
    v: Seq<(Seq<char>, Seq<RecordView>)>,
    exists: Seq<bool>,
    keep_names: bool,
    purge: bool,
    holding: Seq<char>,
) -> Seq<ActionView>
    decreases v.len(),
{
    if v.len() == 0 || exists.len() < v.len() {
        Seq::empty()
    } else {
        directory_resolution(v.drop_last(), exists, keep_names, purge, holding) + resolution(
            v.last(),
            exists[v.len() - 1],
            keep_names,
            purge,
            holding,
        )
    }
}

impl DirectoryGroups {
    /// Path at which a file of group `i`'s canonical name would stand.
    pub fn canonical_location(&self, i: usize) -> (r: String)
        requires
            i < self@.len(),
        ensures
            r@ == location(self.dir_path@) + self@[i as int].0,
    {
        let loc = dir_location(&self.dir_path);
        path_in(&loc, &self.groups[i].canonical_name)
    }
}

/// Decides the actions for every group of a directory.
pub fn resolve_directory(groups: &DirectoryGroups, exists: &Vec<bool>, settings: &Settings) -> (r: Vec<Action>)
    requires
        groups.wf(),
        exists.len() == groups@.len(),
    ensures
        r@.map_values(|a: Action| a@) == directory_resolution(
            groups@,
            exists@,
            settings.keep_names,
            settings.purge,
            settings.holding_dir@,
        ),
{
    let mut out: Vec<Action> = Vec::new();
    let mut i: usize = 0;
    while i < groups.groups.len()
        invariant
            groups.wf(),
            exists.len() == groups@.len(),
            i <= groups@.len(),
            out@.map_values(|a: Action| a@) == directory_resolution(
                groups@.subrange(0, i as int),
                exists@,
                settings.keep_names,
                settings.purge,
                settings.holding_dir@,
            ),
        decreases groups@.len() - i,
    {
        let g = &groups.groups[i];
        proof {
            assert(groups@[i as int] == g@);
            assert forall|j: int| 0 <= j < g.records.len() implies (#[trigger] g.records@[j]).timestamp.digit_bounded() by {
                assert(g@.1[j] == g.records@[j]@);
                assert(crate::grouping::record_fits(groups@[i as int].1[j], groups@[i as int].0, groups.dir_path@));
            }
        }
        let mut acts = resolve_group(g, exists[i], settings);
        let ghost prev = out@;
        let ghost added = acts@;
        out.append(&mut acts);
        proof {
            let v = groups@.subrange(0, i + 1);
            assert(v.drop_last() =~= groups@.subrange(0, i as int));
            assert(out@ =~= prev + added);
            assert(out@.map_values(|a: Action| a@) =~= prev.map_values(|a: Action| a@) + added.map_values(|a: Action| a@));
        }
        i += 1;
    }
    proof {
        assert(groups@.subrange(0, i as int) =~= groups@);
    }
    out
}

/// With names kept, no action of a directory is a rename.
pub proof fn law_keep_names_no_rename_in_directory(
    v: Seq<(Seq<char>, Seq<RecordView>)>,
    exists: Seq<bool>,
    purge: bool,
    holding: Seq<char>,
)
    ensures
        forall|j: int|
            0 <= j < directory_resolution(v, exists, true, purge, holding).len() ==> !(
            #[trigger] directory_resolution(v, exists, true, purge, holding)[j] is Rename),
    decreases v.len(),
{
    if v.len() > 0 && exists.len() >= v.len() {
        law_keep_names_no_rename_in_directory(v.drop_last(), exists, purge, holding);
        law_keep_names_never_renames(v.last(), exists[v.len() - 1], purge, holding);
        let a = directory_resolution(v.drop_last(), exists, true, purge, holding);
        let b = resolution(v.last(), exists[v.len() - 1], true, purge, holding);
        assert forall|j: int| 0 <= j < (a + b).len() implies !(#[trigger] (a + b)[j] is Rename) by {
            if j >= a.len() {
                assert((a + b)[j] == b[j - a.len()]);
            }
        }
    }
}

proof fn lemma_newest_of_prefix(recs: Seq<RecordView>, n: int) -> (i: int)
    requires
        0 < n <= recs.len(),
    ensures
        0 <= i < n,
        forall|j: int| 0 <= j < n ==> #[trigger] recs[j].timestamp.order_key() <= recs[i].timestamp.order_key(),
        forall|j: int| i < j < n ==> #[trigger] recs[j].timestamp.order_key() < recs[i].timestamp.order_key(),
    decreases n,
{
    if n == 1 {
        0
    } else {
        let p = lemma_newest_of_prefix(recs, n - 1);
        if recs[n - 1].timestamp.order_key() >= recs[p].timestamp.order_key() {
            n - 1
        } else {
            p
        }
    }
}

/// A non-empty group has exactly one newest revision.
pub proof fn lemma_newest_unique(recs: Seq<RecordView>) -> (i: int)
    requires
        recs.len() > 0,
    ensures
        is_newest(recs, i),
        forall|j: int| is_newest(recs, j) ==> j == i,
{
    let i = lemma_newest_of_prefix(recs, recs.len() as int);
    assert forall|j: int| is_newest(recs, j) implies j == i by {
        if j < i {
            assert(recs[i].timestamp.order_key() < recs[j].timestamp.order_key());
        } else if i < j {
            assert(recs[j].timestamp.order_key() < recs[i].timestamp.order_key());
        }
    }
    i
}

/// Where renaming is allowed and no file of the canonical name exists, a group
/// of `n` revisions yields exactly one rename, of the newest revision, and
/// `n - 1` disposals.
pub proof fn law_single_rename_of_newest(
    group: (Seq<char>, Seq<RecordView>),
    purge: bool,
    holding: Seq<char>,
)
    requires
        group.1.len() > 0,
    ensures
        exists|i: int|
            #[trigger] is_newest(group.1, i) && (forall|j: int|
                0 <= j < group.1.len() ==> ((#[trigger] resolution(group, false, false, purge, holding)[j]) is Rename
                    <==> j == i)),
        forall|j: int|
            0 <= j < group.1.len() && !(#[trigger] resolution(group, false, false, purge, holding)[j] is Rename)
                ==> resolution(group, false, false, purge, holding)[j] == disposal(group.1[j], purge, holding),
{
    let i = lemma_newest_unique(group.1);
    let r = resolution(group, false, false, purge, holding);
    assert forall|j: int| 0 <= j < group.1.len() implies ((#[trigger] r[j]) is Rename <==> j == i) by {
        if !(r[j] is Rename) && j == i {
            assert(renames(group.1, j, false, false));
        }
        if r[j] is Rename {
            assert(renames(group.1, j, false, false) || disposal(group.1[j], purge, holding) is Rename);
        }
    }
}

/// Where a file of the canonical name already exists, every revision of the
/// group is disposed of.
pub proof fn law_existing_canonical_disposes_all(
    group: (Seq<char>, Seq<RecordView>),
    keep_names: bool,
    purge: bool,
    holding: Seq<char>,
)
    ensures
        forall|j: int|
            0 <= j < group.1.len() ==> #[trigger] resolution(group, true, keep_names, purge, holding)[j]
                == disposal(group.1[j], purge, holding),
{
}

/// With names kept, no group yields a rename, whatever exists on disk.
pub proof fn law_keep_names_never_renames(
    group: (Seq<char>, Seq<RecordView>),
    canonical_exists: bool,
    purge: bool,
    holding: Seq<char>,
)
    ensures
        forall|j: int|
            0 <= j < group.1.len() ==> #[trigger] resolution(group, canonical_exists, true, purge, holding)[j]
                == disposal(group.1[j], purge, holding),
        forall|j: int|
            0 <= j < group.1.len() ==> !(#[trigger] resolution(group, canonical_exists, true, purge, holding)[j] is Rename),
{
}

/// Every revision that is not renamed is deleted under `purge`, and otherwise
/// moved below the holding directory to the same relative directory and name.
pub proof fn law_disposal_kind(
    group: (Seq<char>, Seq<RecordView>),
    canonical_exists: bool,
    keep_names: bool,
    purge: bool,
    holding: Seq<char>,
)
    ensures
        forall|j: int|
            0 <= j < group.1.len() && !(#[trigger] resolution(group, canonical_exists, keep_names, purge, holding)[j] is Rename)
                ==> if purge {
                resolution(group, canonical_exists, keep_names, purge, holding)[j] == ActionView::Delete {
                    source: source_of(group.1[j]),
                }
            } else {
                resolution(group, canonical_exists, keep_names, purge, holding)[j] == ActionView::Move {
                    source: source_of(group.1[j]),
                    target_dir: holding + group.1[j].dir_path,
                    target: holding + group.1[j].dir_path + group.1[j].original_name,
                }
            },
{
}

} // verus!
