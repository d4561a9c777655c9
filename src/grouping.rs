use vstd::prelude::*;
use crate::name::{canonical_name, extract, has_marker, marker_stamp, InvalidStamp};
use crate::stamp::{calendar_valid, Timestamp};

verus! {

/// One revision of a file, found in a directory.
pub struct FileRecord {
    /// Timestamp of the revision, from the last marker of its name.
    pub timestamp: Timestamp,
    /// Directory relative to the root of the run, ending with `/`; empty for the root.
    pub dir_path: String,
    /// The name as found, markers included.
    pub original_name: String,
}

pub struct RecordView {
    pub timestamp: Timestamp,
    pub dir_path: Seq<char>,
    pub original_name: Seq<char>,
}

impl View for FileRecord {
    type V = RecordView;

    open spec fn view(&self) -> RecordView {
        RecordView {
            timestamp: self.timestamp,
            dir_path: self.dir_path@,
            original_name: self.original_name@,
        }
    }
}

/// The revisions of one directory that share a canonical name, in the order found.
pub struct DuplicateGroup {
    pub canonical_name: String,
    pub records: Vec<FileRecord>,
}

impl View for DuplicateGroup {
    type V = (Seq<char>, Seq<RecordView>);

    open spec fn view(&self) -> (Seq<char>, Seq<RecordView>) {
        (self.canonical_name@, self.records@.map_values(|r: FileRecord| r@))
    }
}

/// The duplicate groups of one directory, keyed by canonical name.
pub struct DirectoryGroups {
    pub dir_path: String,
    pub groups: Vec<DuplicateGroup>,
}

impl View for DirectoryGroups {
    type V = Seq<(Seq<char>, Seq<RecordView>)>;

    open spec fn view(&self) -> Seq<(Seq<char>, Seq<RecordView>)> {
        self.groups@.map_values(|g: DuplicateGroup| g@)
    }
}

/// A record belongs in the group `key` of directory `dir`.
pub open spec fn record_fits(r: RecordView, key: Seq<char>, dir: Seq<char>) -> bool {
    &&& r.dir_path == dir
    &&& has_marker(r.original_name)
    &&& canonical_name(r.original_name) == key
    &&& r.timestamp == marker_stamp(r.original_name)
    &&& r.timestamp.digit_bounded()
}

/// Canonical names are distinct, and each record sits in the group of its own
/// canonical name.
pub open spec fn groups_wf(v: Seq<(Seq<char>, Seq<RecordView>)>, dir: Seq<char>) -> bool {
    &&& forall|i: int, j: int| 0 <= i < v.len() && 0 <= j < v.len() && i != j ==> v[i].0 != v[j].0
    &&& forall|i: int, k: int|
        0 <= i < v.len() && 0 <= k < v[i].1.len() ==> record_fits(#[trigger] v[i].1[k], v[i].0, dir)
}

/// `v` with `r` added to the group `key`, which is opened at the end if new.
pub open spec fn grouped(
    v: Seq<(Seq<char>, Seq<RecordView>)>,
    key: Seq<char>,
    r: RecordView,
) -> Seq<(Seq<char>, Seq<RecordView>)> {
    if exists|i: int| 0 <= i < v.len() && v[i].0 == key {
        let i = choose|i: int| 0 <= i < v.len() && v[i].0 == key;
        v.update(i, (key, v[i].1.push(r)))
    } else {
        v.push((key, seq![r]))
    }
}

impl DirectoryGroups {
    pub open spec fn wf(&self) -> bool {
        groups_wf(self@, self.dir_path@)
    }

    /// No groups yet for the directory `dir_path`.
    pub fn new(dir_path: String) -> (r: DirectoryGroups)
        ensures
            r@ == Seq::<(Seq<char>, Seq<RecordView>)>::empty(),
            r.dir_path == dir_path,
            r.wf(),
    {
        let r = DirectoryGroups { dir_path, groups: Vec::new() };
        assert(r@ =~= Seq::<(Seq<char>, Seq<RecordView>)>::empty());
        r
    }

    /// Position of the group `key`, if there is one.
    pub fn find_group(&self, key: &String) -> (r: Option<usize>)
        ensures
            match r {
                Some(i) => i < self@.len() && self@[i as int].0 == key@,
                None => forall|i: int| 0 <= i < self@.len() ==> self@[i].0 != key@,
            },
    {
        let mut i: usize = 0;
        while i < self.groups.len()
            invariant
                i <= self.groups.len(),
                forall|m: int| 0 <= m < i ==> self@[m].0 != key@,
            decreases self.groups.len() - i,
        {
            if self.groups[i].canonical_name == *key {
                return Some(i);
            }
            i += 1;
        }
        None
    }

    /// Adds `rec` to the group `key`, opening the group if it is new.
    pub fn put_multi_map(&mut self, key: String, rec: FileRecord)
        requires
            old(self).wf(),
            record_fits(rec@, key@, old(self).dir_path@),
        ensures
            final(self).wf(),
            final(self).dir_path == old(self).dir_path,
            final(self)@ == grouped(old(self)@, key@, rec@),
    {
        let ghost v = self@;
        let ghost r = rec@;
        match self.find_group(&key) {
            Some(i) => {
                let mut g = self.groups.remove(i);
                let ghost old_records = g.records@;
                g.records.push(rec);
                self.groups.insert(i, g);
                proof {
                    assert(exists|m: int| 0 <= m < v.len() && v[m].0 == key@);
                    let c = choose|m: int| 0 <= m < v.len() && v[m].0 == key@;
                    assert(c == i);
                    assert(g.records@.map_values(|r: FileRecord| r@) =~= old_records.map_values(
                        |r: FileRecord| r@,
                    ).push(r));
                    assert(self@ =~= v.update(i as int, (key@, v[i as int].1.push(r))));
                    assert forall|a: int, k: int|
                        0 <= a < self@.len() && 0 <= k < self@[a].1.len() implies record_fits(
                        #[trigger] self@[a].1[k],
                        self@[a].0,
                        self.dir_path@,
                    ) by {
                        if a == i && k < v[a].1.len() {
                            assert(self@[a].1[k] == v[a].1[k]);
                        }
                    }
                }
            },
            None => {
                let mut records: Vec<FileRecord> = Vec::new();
                records.push(rec);
                assert(records@.map_values(|r: FileRecord| r@) =~= seq![r]);
                self.groups.push(DuplicateGroup { canonical_name: key, records });
                proof {
                    assert(self@ =~= v.push((key@, seq![r])));
                }
            },
        }
    }

    /// Takes in the file `name` of this directory: a name with a marker joins the
    /// group of its canonical name (`Ok(true)`); any other name is left out
    /// (`Ok(false)`); a marker whose date is invalid is an error.
    pub fn add_file(&mut self, name: &str) -> (r: Result<bool, InvalidStamp>)
        requires
            old(self).wf(),
        ensures
            final(self).wf(),
            final(self).dir_path == old(self).dir_path,
            match r {
                Ok(true) => has_marker(name@) && calendar_valid(marker_stamp(name@)) && final(self)@ == grouped(
                    old(self)@,
                    canonical_name(name@),
                    RecordView {
                        timestamp: marker_stamp(name@),
                        dir_path: old(self).dir_path@,
                        original_name: name@,
                    },
                ),
                Ok(false) => !has_marker(name@) && final(self)@ == old(self)@,
                Err(e) => has_marker(name@) && !calendar_valid(marker_stamp(name@)) && final(self)@
                    == old(self)@ && e.date@
                    == crate::name::marker_date(name@),
            },
    {
        match extract(name) {
            Ok(Some(m)) => {
                let rec = FileRecord {
                    timestamp: m.timestamp,
                    dir_path: self.dir_path.clone(),
                    original_name: String::from_str(name),
                };
                self.put_multi_map(m.canonical_name, rec);
                Ok(true)
            },
            Ok(None) => Ok(false),
            Err(e) => Err(e),
        }
    }
}

} // verus!
