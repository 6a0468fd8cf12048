//! From a directory walk to a snapshot.
//!
//! Walking the tree is left to whoever drives the library. What the walk
//! found is filtered here: an entry is tracked unless the matcher excludes it
//! or a directory above it, and an entry that could not be read is skipped.

use vstd::prelude::*;
use crate::matcher::{any_matches, IgnoreMatcher};
use crate::paths::{chars_of, is_separator, separator, text_of};
use crate::snapshot::{find_kind, lemma_find_kind_push, PathRecord, Snapshot};

verus! {

/// One step of a directory walk.
#[derive(Debug, Clone, PartialEq, Eq)]
pub enum WalkEntry {
    /// An entry, with its path and kind.
    Found(PathRecord),
    /// An entry that could not be read.
    Unreadable,
}

/// The records a walk found, in walk order; unreadable entries left out.
pub open spec fn found_records(entries: Seq<WalkEntry>) -> Seq<PathRecord>
    decreases entries.len(),
{
    if entries.len() == 0 {
        Seq::empty()
    } else {
        match entries.last() {
            WalkEntry::Found(r) => found_records(entries.drop_last()).push(r),
            WalkEntry::Unreadable => found_records(entries.drop_last()),
        }
    }
}

/// Whether `path` is pruned: a pattern matches the path itself, or a directory
/// above it, which takes its whole subtree with it.
pub open spec fn pruned(patterns: Seq<Seq<char>>, path: Seq<char>) -> bool {
    any_matches(patterns, path) || exists|k: int|
        0 < k < path.len() && is_separator(#[trigger] path[k]) && any_matches(
            patterns,
            path.take(k),
        )
}

/// The records a snapshot of a walk holds, in walk order: each entry that was
/// read, is not pruned, and whose path no earlier such entry holds.
pub open spec fn walk_records(entries: Seq<WalkEntry>, patterns: Seq<Seq<char>>) -> Seq<PathRecord>
    decreases entries.len(),
{
    if entries.len() == 0 {
        Seq::empty()
    } else {
        let rest = walk_records(entries.drop_last(), patterns);
        match entries.last() {
            WalkEntry::Found(r) => if pruned(patterns, r.path@) || find_kind(rest, r.path@)
                is Some {
                rest
            } else {
                rest.push(r)
            },
            WalkEntry::Unreadable => rest,
        }
    }
}

/// Decides [`pruned`].
pub fn is_pruned(matcher: &IgnoreMatcher, path: &str) -> (b: bool)
    ensures
        b == pruned(matcher.patterns(), path@),
{
    if matcher.matches(path) {
        return true;
    }
    let chars = chars_of(path);
    if chars.len() == 0 {
        return false;
    }
    let mut prefix: Vec<char> = Vec::new();
    prefix.push(chars[0]);
    assert(prefix@ =~= chars@.take(1));
    let mut k: usize = 1;
    while k < chars.len()
        invariant
            1 <= k <= chars.len(),
            chars@ == path@,
            prefix@ == chars@.take(k as int),
            forall|j: int|
                0 < j < k && is_separator(#[trigger] path@[j]) ==> !any_matches(
                    matcher.patterns(),
                    path@.take(j),
                ),
        decreases chars.len() - k,
    {
        if separator(chars[k]) {
            let above = text_of(&prefix);
            if matcher.matches(above.as_str()) {
                return true;
            }
        }
        prefix.push(chars[k]);
        assert(prefix@ =~= chars@.take(k + 1));
        k += 1;
    }
    false
}

/// The snapshot of a walk: each entry that was read and is not pruned, each
/// path once, described by the first entry that holds it.
pub fn snapshot(entries: &Vec<WalkEntry>, matcher: &IgnoreMatcher) -> (s: Snapshot)
    ensures
        s.wf(),
        s.entries() == walk_records(entries@, matcher.patterns()),
        forall|p: Seq<char>|
            #[trigger] s@.contains_key(p) == (!pruned(matcher.patterns(), p) && find_kind(
                found_records(entries@),
                p,
            ) is Some),
        forall|p: Seq<char>|
            #[trigger] s@.contains_key(p) ==> s@[p] == find_kind(found_records(entries@), p)->0,
{
    let mut s = Snapshot::new();
    let mut i: usize = 0;
    assert(entries@.take(0) =~= Seq::<WalkEntry>::empty());
    while i < entries.len()
        invariant
            i <= entries.len(),
            s.wf(),
            s.entries() == walk_records(entries@.take(i as int), matcher.patterns()),
            forall|p: Seq<char>|
                #[trigger] s@.contains_key(p) == (!pruned(matcher.patterns(), p) && find_kind(
                    found_records(entries@.take(i as int)),
                    p,
                ) is Some),
            forall|p: Seq<char>|
                #[trigger] s@.contains_key(p) ==> s@[p] == find_kind(
                    found_records(entries@.take(i as int)),
                    p,
                )->0,
        decreases entries.len() - i,
    {
        let ghost seen = found_records(entries@.take(i as int));
        assert(entries@.take(i + 1).drop_last() =~= entries@.take(i as int));
        assert(entries@.take(i + 1).last() == entries@[i as int]);
        match &entries[i] {
            WalkEntry::Found(r) => {
                proof {
                    assert forall|p: Seq<char>|
                        #[trigger] find_kind(seen.push(*r), p) == (match find_kind(seen, p) {
                            Some(k) => Some(k),
                            None => if r.path@ == p {
                                Some(r.is_file)
                            } else {
                                None
                            },
                        }) by {
                        lemma_find_kind_push(seen, *r, p);
                    }
                }
                let ghost prior = s@;
                assert(found_records(entries@.take(i + 1)) == seen.push(*r));
                if !is_pruned(matcher, r.path.as_str()) {
                    s.insert(PathRecord { is_file: r.is_file, path: r.path.clone() });
                }
                assert forall|p: Seq<char>|
                    #[trigger] s@.contains_key(p) == (!pruned(matcher.patterns(), p) && find_kind(
                        seen.push(*r),
                        p,
                    ) is Some) by {
                    assert(prior.contains_key(p) == (!pruned(matcher.patterns(), p) && find_kind(
                        seen,
                        p,
                    ) is Some));
                }
                assert forall|p: Seq<char>| #[trigger] s@.contains_key(p) implies s@[p] == find_kind(
                    seen.push(*r),
                    p,
                )->0 by {
                    assert(prior.contains_key(p) ==> prior[p] == find_kind(seen, p)->0);
                }
            },
            WalkEntry::Unreadable => {
                assert(found_records(entries@.take(i + 1)) == seen);
                assert forall|p: Seq<char>|
                    #[trigger] s@.contains_key(p) == (!pruned(matcher.patterns(), p) && find_kind(
                        found_records(entries@.take(i + 1)),
                        p,
                    ) is Some) by {}
            },
        }
        i += 1;
    }
    assert(entries@.take(i as int) =~= entries@);
    s
}

} // verus!
