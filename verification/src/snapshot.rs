//! Snapshots: the tracked entries of a tree at one moment.
//!
//! A snapshot is modelled as a map from each tracked path to whether it was a
//! regular file when the snapshot was taken.

use vstd::prelude::*;
use vstd::string::*;

verus! {

/// One tracked entry: a path and whether it is a regular file.
#[derive(Debug, Clone, PartialEq, Eq)]
pub struct PathRecord {
    pub is_file: bool,
    pub path: String,
}

/// What the first record for `path` says, if there is one.
pub open spec fn find_kind(records: Seq<PathRecord>, path: Seq<char>) -> Option<bool>
    decreases records.len(),
{
    if records.len() == 0 {
        None
    } else if records[0].path@ == path {
        Some(records[0].is_file)
    } else {
        find_kind(records.drop_first(), path)
    }
}

/// No two records share a path.
pub open spec fn distinct_paths(records: Seq<PathRecord>) -> bool {
    forall|i: int, j: int|
        0 <= i < j < records.len() ==> (#[trigger] records[i]).path@ != (#[trigger] records[j]).path@
}

/// `records` without every record whose path an earlier record holds.
pub open spec fn first_occurrences(records: Seq<PathRecord>) -> Seq<PathRecord>
    decreases records.len(),
{
    if records.len() == 0 {
        Seq::empty()
    } else {
        let rest = first_occurrences(records.drop_last());
        if find_kind(records.drop_last(), records.last().path@) is Some {
            rest
        } else {
            rest.push(records.last())
        }
    }
}

/// A record appended to a list is found only where the list had none for its
/// path.
pub proof fn lemma_find_kind_push(records: Seq<PathRecord>, record: PathRecord, path: Seq<char>)
    ensures
        find_kind(records.push(record), path) == match find_kind(records, path) {
            Some(k) => Some(k),
            None => if record.path@ == path {
                Some(record.is_file)
            } else {
                None
            },
        },
    decreases records.len(),
{
    if records.len() == 0 {
        assert(records.push(record).drop_first() =~= records);
    } else {
        assert(records.push(record).drop_first() =~= records.drop_first().push(record));
        lemma_find_kind_push(records.drop_first(), record, path);
    }
}

/// A path is found exactly if some record holds it.
pub proof fn lemma_find_kind_some(records: Seq<PathRecord>, path: Seq<char>)
    ensures
        find_kind(records, path) is Some <==> exists|i: int|
            0 <= i < records.len() && (#[trigger] records[i]).path@ == path,
    decreases records.len(),
{
    if records.len() > 0 {
        let rest = records.drop_first();
        lemma_find_kind_some(rest, path);
        if find_kind(records, path) is Some {
            if records[0].path@ != path {
                let i = choose|i: int| 0 <= i < rest.len() && (#[trigger] rest[i]).path@ == path;
                assert(records[i + 1].path@ == path);
            }
        } else {
            assert forall|i: int| 0 <= i < records.len() implies (#[trigger] records[i]).path@
                != path by {
                if i > 0 {
                    assert(rest[i - 1].path@ == records[i].path@);
                }
            }
        }
    }
}

/// The set of tracked entries at one moment. No path occurs twice.
#[derive(Debug, Clone)]
pub struct Snapshot {
    records: Vec<PathRecord>,
}

impl View for Snapshot {
    type V = Map<Seq<char>, bool>;

    /// Each tracked path, with whether it is a regular file.
    open spec fn view(&self) -> Map<Seq<char>, bool> {
        Map::new(
            |p: Seq<char>| find_kind(self.entries(), p) is Some,
            |p: Seq<char>| find_kind(self.entries(), p)->0,
        )
    }
}

impl Snapshot {
    /// The records, in the order they were added.
    pub closed spec fn entries(&self) -> Seq<PathRecord> {
        self.records@
    }

    /// The snapshot invariant: no two records share a path.
    pub open spec fn wf(&self) -> bool {
        distinct_paths(self.entries())
    }

    /// The snapshot of an empty tree.
    pub fn new() -> (s: Snapshot)
        ensures
            s@ == Map::<Seq<char>, bool>::empty(),
            s.entries().len() == 0,
            s.wf(),
    {
        let s = Snapshot { records: Vec::new() };
        assert(s@ =~= Map::<Seq<char>, bool>::empty());
        s
    }

    /// How many entries are tracked.
    pub fn len(&self) -> (n: usize)
        ensures
            n == self.entries().len(),
    {
        self.records.len()
    }

    /// The record at `index`, in insertion order.
    pub fn record(&self, index: usize) -> (r: &PathRecord)
        requires
            index < self.entries().len(),
        ensures
            *r == self.entries()[index as int],
    {
        &self.records[index]
    }

    /// Whether `path` is tracked and, if so, whether it is a regular file.
    pub fn kind(&self, path: &str) -> (k: Option<bool>)
        ensures
            k is Some == self@.contains_key(path@),
            k matches Some(is_file) ==> is_file == self@[path@],
    {
        let key = String::from_str(path);
        let mut i: usize = 0;
        assert(self.records@.skip(0) =~= self.records@);
        while i < self.records.len()
            invariant
                i <= self.records.len(),
                key@ == path@,
                find_kind(self.records@, path@) == find_kind(self.records@.skip(i as int), path@),
            decreases self.records.len() - i,
        {
            let ghost rest = self.records@.skip(i as int);
            assert(rest.drop_first() =~= self.records@.skip(i + 1));
            assert(rest[0] == self.records@[i as int]);
            if self.records[i].path == key {
                return Some(self.records[i].is_file);
            }
            i += 1;
        }
        None
    }

    /// Whether `path` is tracked.
    pub fn contains(&self, path: &str) -> (b: bool)
        ensures
            b == self@.contains_key(path@),
    {
        self.kind(path).is_some()
    }

    /// Tracks `record` unless its path is tracked already; says whether it
    /// was added.
    pub fn insert(&mut self, record: PathRecord) -> (added: bool)
        ensures
            added == !old(self)@.contains_key(record.path@),
            added ==> final(self)@ == old(self)@.insert(record.path@, record.is_file),
            added ==> final(self).entries() == old(self).entries().push(record),
            !added ==> *final(self) == *old(self),
            old(self).wf() ==> final(self).wf(),
    {
        if self.contains(record.path.as_str()) {
            return false;
        }
        proof {
            let before = self.records@;
            lemma_find_kind_some(before, record.path@);
            assert forall|p: Seq<char>|
                #[trigger] find_kind(before.push(record), p) == (if find_kind(before, p) is Some {
                    find_kind(before, p)
                } else if record.path@ == p {
                    Some(record.is_file)
                } else {
                    None
                }) by {
                lemma_find_kind_push(before, record, p);
            }
        }
        let ghost prior = *self;
        self.records.push(record);
        assert(self@ =~= prior@.insert(record.path@, record.is_file));
        true
    }

    /// The snapshot of `records`: each path once, described by its first
    /// record.
    pub fn from_records(records: Vec<PathRecord>) -> (s: Snapshot)
        ensures
            s.wf(),
            s.entries() == first_occurrences(records@),
            forall|p: Seq<char>| #[trigger] s@.contains_key(p) == (find_kind(records@, p) is Some),
            forall|p: Seq<char>| #[trigger] s@.contains_key(p) ==> s@[p] == find_kind(records@, p)->0,
    {
        let mut s = Snapshot::new();
        let ghost all = records@;
        let mut i: usize = 0;
        assert(all.take(0) =~= Seq::<PathRecord>::empty());
        while i < records.len()
            invariant
                i <= records.len(),
                all == records@,
                s.wf(),
                s.entries() == first_occurrences(all.take(i as int)),
                forall|p: Seq<char>|
                    #[trigger] s@.contains_key(p) == (find_kind(all.take(i as int), p) is Some),
                forall|p: Seq<char>|
                    #[trigger] s@.contains_key(p) ==> s@[p] == find_kind(all.take(i as int), p)->0,
            decreases records.len() - i,
        {
            let r = PathRecord { is_file: records[i].is_file, path: records[i].path.clone() };
            assert(r == all[i as int]);
            proof {
                assert(all.take(i as int).push(r) =~= all.take(i + 1));
                assert(all.take(i + 1).drop_last() =~= all.take(i as int));
                assert(all.take(i + 1).last() == r);
                assert forall|p: Seq<char>|
                    #[trigger] find_kind(all.take(i + 1), p) == (match find_kind(
                        all.take(i as int),
                        p,
                    ) {
                        Some(k) => Some(k),
                        None => if r.path@ == p {
                            Some(r.is_file)
                        } else {
                            None
                        },
                    }) by {
                    lemma_find_kind_push(all.take(i as int), r, p);
                }
            }
            s.insert(r);
            i += 1;
        }
        assert(all.take(i as int) =~= all);
        s
    }
}

} // verus!
