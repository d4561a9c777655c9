use vstd::prelude::*;

verus! {

/// What a directory entry turned out to be.
#[derive(Clone, Copy, Debug, PartialEq, Eq, Structural)]
pub enum EntryKind {
    File,
    Directory,
    Other,
}

/// What a unit of work does with one entry of its directory.
#[derive(Clone, Copy, Debug, PartialEq, Eq, Structural)]
pub enum EntryStep {
    /// Hand the subdirectory to a new unit of work.
    Descend,
    /// Read the file's name for a marker.
    Examine,
    /// Leave the entry alone.
    Ignore,
}

pub open spec fn entry_step(kind: EntryKind, recursive: bool) -> EntryStep {
    match kind {
        EntryKind::Directory => if recursive { EntryStep::Descend } else { EntryStep::Ignore },
        EntryKind::File => EntryStep::Examine,
        EntryKind::Other => EntryStep::Ignore,
    }
}

/// Subdirectories are followed only when the run is recursive; files are read.
pub fn classify_entry(kind: EntryKind, recursive: bool) -> (r: EntryStep)
    ensures
        r == entry_step(kind, recursive),
{
    match kind {
        EntryKind::Directory => if recursive {
            EntryStep::Descend
        } else {
            EntryStep::Ignore
        },
        EntryKind::File => EntryStep::Examine,
        EntryKind::Other => EntryStep::Ignore,
    }
}

/// The relative path of subdirectory `name` of `parent`.
pub fn child_dir(parent: &String, name: &str) -> (r: String)
    ensures
        r@ == parent@ + name@ + seq!['/'],
{
    proof {
        reveal_strlit("/");
    }
    let r = parent.clone().concat(name);
    r.concat("/")
}

} // verus!
