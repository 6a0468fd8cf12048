//! The exclusion manifest for a full resynchronisation.
//!
//! Given every entry found under the root and the snapshot of tracked entries,
//! the manifest lists, one per line and in remote form, each entry that is
//! present but not tracked. The work is cut into contiguous chunks so that it
//! can be shared out; how it is cut does not change the outcome.

use vstd::prelude::*;
use crate::paths::{remote_form, text_of, chars_of, upload_path};
use crate::snapshot::{PathRecord, Snapshot};

verus! {

/// The manifest lines for `all`: the remote form of each record whose path
/// `legal` does not track, in the order of `all`.
pub open spec fn exclusion_lines(
    all: Seq<PathRecord>,
    legal: Map<Seq<char>, bool>,
    root: Seq<char>,
) -> Seq<Seq<char>>
    decreases all.len(),
{
    if all.len() == 0 {
        Seq::empty()
    } else {
        let rest = exclusion_lines(all.drop_last(), legal, root);
        let r = all.last();
        if legal.contains_key(r.path@) {
            rest
        } else {
            rest.push(remote_form(root, r.path@, r.is_file, true))
        }
    }
}

/// How many records of `all` have a path that `legal` does not track.
pub open spec fn untracked_count(all: Seq<PathRecord>, legal: Map<Seq<char>, bool>) -> nat
    decreases all.len(),
{
    if all.len() == 0 {
        0
    } else {
        untracked_count(all.drop_last(), legal) + if legal.contains_key(all.last().path@) {
            0nat
        } else {
            1nat
        }
    }
}

/// The size of a chunk when `count` entries are shared among `parallelism`
/// workers: their quotient, and at least one.
pub open spec fn chunk_size(count: nat, parallelism: nat) -> nat {
    if parallelism == 0 || count / parallelism == 0 {
        1
    } else {
        count / parallelism
    }
}

/// The chunks that cover the entries from `from` up to `count`, each of `step`
/// entries but for the last, which holds what is left: each chunk as the place
/// of its first entry and the place after its last.
pub open spec fn chunks_from(count: nat, step: nat, from: nat) -> Seq<(usize, usize)>
    decreases count - from,
{
    if from >= count || step == 0 {
        Seq::empty()
    } else {
        let to = if count - from < step {
            count
        } else {
            from + step
        };
        seq![(from as usize, to as usize)] + chunks_from(count, step, to)
    }
}

/// Whether every chunk of `bounds` is a stretch of `count` entries that is
/// not empty.
pub open spec fn chunks_in_range(bounds: Seq<(usize, usize)>, count: nat) -> bool {
    forall|i: int| 0 <= i < bounds.len() ==> (#[trigger] bounds[i]).0 < bounds[i].1 <= count
}

/// The manifest lines of each chunk of `bounds`, chunk by chunk.
pub open spec fn chunk_lines(
    all: Seq<PathRecord>,
    bounds: Seq<(usize, usize)>,
    legal: Map<Seq<char>, bool>,
    root: Seq<char>,
) -> Seq<Seq<Seq<char>>> {
    Seq::new(
        bounds.len(),
        |i: int| exclusion_lines(all.subrange(bounds[i].0 as int, bounds[i].1 as int), legal, root),
    )
}

/// The lists of `parts` laid end to end, in order.
pub open spec fn joined(parts: Seq<Seq<Seq<char>>>) -> Seq<Seq<char>>
    decreases parts.len(),
{
    if parts.len() == 0 {
        Seq::empty()
    } else {
        parts[0] + joined(parts.drop_first())
    }
}

/// The text of a manifest: each line followed by a line feed.
pub open spec fn manifest_text(lines: Seq<Seq<char>>) -> Seq<char>
    decreases lines.len(),
{
    if lines.len() == 0 {
        Seq::empty()
    } else {
        manifest_text(lines.drop_last()) + lines.last() + seq!['\n']
    }
}

/// The lines of two lists laid end to end are the lines of the first followed
/// by the lines of the second.
pub proof fn lemma_exclusion_lines_concat(
    a: Seq<PathRecord>,
    b: Seq<PathRecord>,
    legal: Map<Seq<char>, bool>,
    root: Seq<char>,
)
    ensures
        exclusion_lines(a + b, legal, root) == exclusion_lines(a, legal, root) + exclusion_lines(
            b,
            legal,
            root,
        ),
    decreases b.len(),
{
    if b.len() == 0 {
        assert(a + b =~= a);
        assert(exclusion_lines(a, legal, root) + Seq::<Seq<char>>::empty() =~= exclusion_lines(
            a,
            legal,
            root,
        ));
    } else {
        assert((a + b).drop_last() =~= a + b.drop_last());
        assert((a + b).last() == b.last());
        lemma_exclusion_lines_concat(a, b.drop_last(), legal, root);
        let left = exclusion_lines(a, legal, root);
        let right = exclusion_lines(b.drop_last(), legal, root);
        let line = remote_form(root, b.last().path@, b.last().is_file, true);
        assert((left + right).push(line) =~= left + right.push(line));
    }
}

/// The manifest has exactly one line for each entry that is not tracked.
pub proof fn lemma_one_line_per_untracked(
    all: Seq<PathRecord>,
    legal: Map<Seq<char>, bool>,
    root: Seq<char>,
)
    ensures
        exclusion_lines(all, legal, root).len() == untracked_count(all, legal),
    decreases all.len(),
{
    if all.len() > 0 {
        lemma_one_line_per_untracked(all.drop_last(), legal, root);
    }
}

/// `num_cpus::get`: the number of logical processors this process may use.
/// Nothing is claimed of the number.
#[verifier::external_body]
fn logical_cpus() -> (n: usize) {
    num_cpus::get()
}

/// The chunk size for `count` entries and `parallelism` workers.
pub fn chunk_length(count: usize, parallelism: usize) -> (n: usize)
    ensures
        n == chunk_size(count as nat, parallelism as nat),
        n >= 1,
{
    if parallelism == 0 {
        1
    } else {
        let q = count / parallelism;
        if q == 0 {
            1
        } else {
            q
        }
    }
}

/// The manifest lines for the records of `all` from `start` up to `end`.
pub fn chunk_exclusions(
    all: &Vec<PathRecord>,
    start: usize,
    end: usize,
    legal: &Snapshot,
    root: &str,
) -> (lines: Vec<String>)
    requires
        start <= end <= all.len(),
    ensures
        lines.deep_view() == exclusion_lines(all@.subrange(start as int, end as int), legal@, root@),
{
    let mut lines: Vec<String> = Vec::new();
    let mut i: usize = start;
    assert(lines.deep_view() =~= Seq::<Seq<char>>::empty());
    assert(all@.subrange(start as int, start as int) =~= Seq::<PathRecord>::empty());
    while i < end
        invariant
            start <= i <= end <= all.len(),
            lines.deep_view() == exclusion_lines(
                all@.subrange(start as int, i as int),
                legal@,
                root@,
            ),
        decreases end - i,
    {
        let ghost done = lines.deep_view();
        let ghost next = all@.subrange(start as int, i + 1);
        assert(next.drop_last() =~= all@.subrange(start as int, i as int));
        assert(next.last() == all@[i as int]);
        let record = &all[i];
        if !legal.contains(record.path.as_str()) {
            let line = upload_path(root, record.path.as_str(), record.is_file, true);
            lines.push(line);
            assert(lines.deep_view() =~= done.push(line@));
        }
        i += 1;
    }
    lines
}

/// The chunks from `from` on lie within the entries and none is empty.
pub proof fn lemma_chunks_in_range(count: nat, step: nat, from: nat)
    requires
        count <= usize::MAX,
    ensures
        chunks_in_range(chunks_from(count, step, from), count),
    decreases count - from,
{
    if from < count && step > 0 {
        let to = if count - from < step {
            count
        } else {
            from + step
        };
        lemma_chunks_in_range(count, step, to);
        let rest = chunks_from(count, step, to);
        let whole = chunks_from(count, step, from);
        assert forall|i: int| 0 <= i < whole.len() implies (#[trigger] whole[i]).0 < whole[i].1
            <= count by {
            if i > 0 {
                assert(whole[i] == rest[i - 1]);
            }
        }
    }
}

/// However the entries are cut into chunks of one size, the lines of the
/// chunks, laid end to end, are the lines of the whole: cutting the work does
/// not change the manifest.
pub proof fn lemma_chunks_join(
    all: Seq<PathRecord>,
    step: nat,
    from: nat,
    legal: Map<Seq<char>, bool>,
    root: Seq<char>,
)
    requires
        step >= 1,
        from <= all.len() <= usize::MAX,
    ensures
        joined(chunk_lines(all, chunks_from(all.len(), step, from), legal, root))
            == exclusion_lines(all.skip(from as int), legal, root),
    decreases all.len() - from,
{
    let count = all.len();
    let bounds = chunks_from(count, step, from);
    let parts = chunk_lines(all, bounds, legal, root);
    if from >= count {
        assert(all.skip(from as int) =~= Seq::<PathRecord>::empty());
    } else {
        let to = if count - from < step {
            count
        } else {
            from + step
        };
        let rest = chunks_from(count, step, to);
        lemma_chunks_join(all, step, to, legal, root);
        assert(bounds[0] == (from as usize, to as usize));
        assert(parts.drop_first() =~= chunk_lines(all, rest, legal, root)) by {
            assert forall|i: int| 0 <= i < rest.len() implies bounds[i + 1] == rest[i] by {}
        }
        lemma_exclusion_lines_concat(
            all.subrange(from as int, to as int),
            all.skip(to as int),
            legal,
            root,
        );
        assert(all.subrange(from as int, to as int) + all.skip(to as int) =~= all.skip(
            from as int,
        ));
    }
}

/// Whether a manifest is to be written for a tree of `count` entries: only a
/// tree with no entry at all leaves none.
pub fn manifest_needed(count: usize) -> (b: bool)
    ensures
        b == (count > 0),
{
    count > 0
}

/// The chunks that `count` entries are cut into for `parallelism` workers:
/// contiguous, in order, each of [`chunk_size`] entries but for the last.
pub fn chunk_bounds(count: usize, parallelism: usize) -> (bounds: Vec<(usize, usize)>)
    ensures
        bounds@ == chunks_from(
            count as nat,
            chunk_size(count as nat, parallelism as nat),
            0,
        ),
        chunks_in_range(bounds@, count as nat),
{
    let step = chunk_length(count, parallelism);
    let ghost whole = chunks_from(count as nat, step as nat, 0);
    let mut bounds: Vec<(usize, usize)> = Vec::new();
    let mut start: usize = 0;
    while start < count
        invariant
            start <= count,
            step >= 1,
            whole == bounds@ + chunks_from(count as nat, step as nat, start as nat),
        decreases count - start,
    {
        let end = if count - start < step {
            count
        } else {
            start + step
        };
        bounds.push((start, end));
        assert(whole =~= bounds@ + chunks_from(count as nat, step as nat, end as nat));
        start = end;
    }
    assert(whole =~= bounds@);
    proof {
        lemma_chunks_in_range(count as nat, step as nat, 0);
    }
    bounds
}

/// The chunks that `count` entries are cut into for the processors of this
/// machine. Whatever their number, the chunks are those of [`chunk_bounds`]
/// for some number of workers.
pub fn chunk_bounds_here(count: usize) -> (bounds: Vec<(usize, usize)>)
    ensures
        exists|parallelism: nat|
            bounds@ == #[trigger] chunks_from(
                count as nat,
                chunk_size(count as nat, parallelism),
                0,
            ),
        chunks_in_range(bounds@, count as nat),
{
    let cpus = logical_cpus();
    let bounds = chunk_bounds(count, cpus);
    assert(bounds@ == chunks_from(count as nat, chunk_size(count as nat, cpus as nat), 0));
    bounds
}

/// The manifest lines of each chunk of `bounds`, one list for each chunk.
pub fn gather_chunks(
    all: &Vec<PathRecord>,
    bounds: &Vec<(usize, usize)>,
    legal: &Snapshot,
    root: &str,
) -> (parts: Vec<Vec<String>>)
    requires
        chunks_in_range(bounds@, all.len() as nat),
    ensures
        parts.deep_view() == chunk_lines(all@, bounds@, legal@, root@),
{
    let mut parts: Vec<Vec<String>> = Vec::new();
    let mut i: usize = 0;
    while i < bounds.len()
        invariant
            i <= bounds.len(),
            chunks_in_range(bounds@, all.len() as nat),
            parts.len() == i,
            forall|j: int|
                0 <= j < i ==> (#[trigger] parts[j]).deep_view() == exclusion_lines(
                    all@.subrange(bounds[j].0 as int, bounds[j].1 as int),
                    legal@,
                    root@,
                ),
        decreases bounds.len() - i,
    {
        let (start, end) = bounds[i];
        parts.push(chunk_exclusions(all, start, end, legal, root));
        i += 1;
    }
    assert(parts.deep_view() =~= chunk_lines(all@, bounds@, legal@, root@));
    parts
}

/// The lists of `parts` laid end to end, in order.
pub fn join_chunks(parts: &Vec<Vec<String>>) -> (lines: Vec<String>)
    ensures
        lines.deep_view() == joined(parts.deep_view()),
{
    let ghost whole = joined(parts.deep_view());
    let mut lines: Vec<String> = Vec::new();
    let mut i: usize = 0;
    assert(parts.deep_view().skip(0) =~= parts.deep_view());
    assert(lines.deep_view() =~= Seq::<Seq<char>>::empty());
    while i < parts.len()
        invariant
            i <= parts.len(),
            whole == lines.deep_view() + joined(parts.deep_view().skip(i as int)),
        decreases parts.len() - i,
    {
        let part = &parts[i];
        let ghost before = lines.deep_view();
        let ghost rest = parts.deep_view().skip(i as int);
        assert(rest[0] == part.deep_view());
        assert(rest.drop_first() =~= parts.deep_view().skip(i + 1));
        let mut k: usize = 0;
        while k < part.len()
            invariant
                k <= part.len(),
                lines.deep_view() == before + part.deep_view().take(k as int),
            decreases part.len() - k,
        {
            let ghost sofar = lines.deep_view();
            lines.push(part[k].clone());
            assert(lines.deep_view() =~= sofar.push(part[k as int]@));
            assert(part.deep_view().take(k + 1) =~= part.deep_view().take(k as int).push(
                part[k as int]@,
            ));
            k += 1;
        }
        assert(part.deep_view().take(k as int) =~= part.deep_view());
        assert(whole =~= lines.deep_view() + joined(parts.deep_view().skip(i + 1)));
        i += 1;
    }
    assert(whole =~= lines.deep_view());
    lines
}

/// The manifest lines for `all`, computed chunk by chunk for `parallelism`
/// workers. The outcome does not depend on `parallelism`: it has one line for
/// each entry that `legal` does not track, in the order of `all`.
pub fn build_exclusions(
    all: &Vec<PathRecord>,
    legal: &Snapshot,
    root: &str,
    parallelism: usize,
) -> (lines: Vec<String>)
    ensures
        lines.deep_view() == exclusion_lines(all@, legal@, root@),
        lines.len() == untracked_count(all@, legal@),
{
    let bounds = chunk_bounds(all.len(), parallelism);
    let parts = gather_chunks(all, &bounds, legal, root);
    let lines = join_chunks(&parts);
    proof {
        lemma_chunks_join(
            all@,
            chunk_size(all.len() as nat, parallelism as nat),
            0,
            legal@,
            root@,
        );
        assert(all@.skip(0) =~= all@);
        lemma_one_line_per_untracked(all@, legal@, root@);
        assert(lines.deep_view().len() == lines.len());
    }
    lines
}

/// The manifest lines for `all`, chunked for the processors of this machine.
/// Whatever their number, the outcome is that of [`build_exclusions`].
pub fn build_exclusions_here(all: &Vec<PathRecord>, legal: &Snapshot, root: &str) -> (lines: Vec<
    String,
>)
    ensures
        lines.deep_view() == exclusion_lines(all@, legal@, root@),
        lines.len() == untracked_count(all@, legal@),
{
    let bounds = chunk_bounds_here(all.len());
    let parts = gather_chunks(all, &bounds, legal, root);
    let lines = join_chunks(&parts);
    proof {
        let parallelism = choose|parallelism: nat|
            bounds@ == #[trigger] chunks_from(
                all.len() as nat,
                chunk_size(all.len() as nat, parallelism),
                0,
            );
        lemma_chunks_join(all@, chunk_size(all.len() as nat, parallelism), 0, legal@, root@);
        assert(all@.skip(0) =~= all@);
        lemma_one_line_per_untracked(all@, legal@, root@);
        assert(lines.deep_view().len() == lines.len());
    }
    lines
}

/// The text of the manifest file: each line followed by a line feed.
pub fn render_manifest(lines: &Vec<String>) -> (text: String)
    ensures
        text@ == manifest_text(lines.deep_view()),
{
    let mut text: Vec<char> = Vec::new();
    let mut i: usize = 0;
    assert(lines.deep_view().take(0) =~= Seq::<Seq<char>>::empty());
    while i < lines.len()
        invariant
            i <= lines.len(),
            text@ == manifest_text(lines.deep_view().take(i as int)),
        decreases lines.len() - i,
    {
        let ghost done = text@;
        let ghost next = lines.deep_view().take(i + 1);
        assert(next.drop_last() =~= lines.deep_view().take(i as int));
        assert(next.last() == lines[i as int]@);
        let mut line = chars_of(lines[i].as_str());
        text.append(&mut line);
        text.push('\n');
        assert(text@ =~= done + lines[i as int]@ + seq!['\n']);
        i += 1;
    }
    assert(lines.deep_view().take(i as int) =~= lines.deep_view());
    text_of(&text)
}

} // verus!
