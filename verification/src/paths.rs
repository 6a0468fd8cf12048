//! Local paths as text, and their translation to remote form.
//!
//! A path is modelled as its sequence of characters. Both `/` and `\` count
//! as separators; the remote side only ever sees `/`.

use vstd::prelude::*;
use vstd::string::*;

verus! {

/// Whether `c` separates path components.
pub open spec fn is_separator(c: char) -> bool {
    c == '/' || c == '\\'
}

/// `c` with every separator turned into `/`.
pub open spec fn unify(c: char) -> char {
    if is_separator(c) {
        '/'
    } else {
        c
    }
}

/// `s` with every separator turned into `/`.
pub open spec fn normalized(s: Seq<char>) -> Seq<char> {
    Seq::new(s.len(), |i: int| unify(s[i]))
}

/// Whether `path` lies at or below `root`: `root` is a prefix of `path`, up to
/// the kind of separator, and ends at a component boundary of `path`.
pub open spec fn under_root(root: Seq<char>, path: Seq<char>) -> bool {
    &&& root.len() <= path.len()
    &&& forall|i: int| 0 <= i < root.len() ==> unify(#[trigger] root[i]) == unify(path[i])
    &&& (root.len() == path.len() || is_separator(path[root.len() as int]) || (root.len() > 0
        && is_separator(root[root.len() - 1])))
}

/// How many separators `s` starts with.
pub open spec fn leading_separators(s: Seq<char>) -> nat
    decreases s.len(),
{
    if s.len() > 0 && is_separator(s[0]) {
        1 + leading_separators(s.drop_first())
    } else {
        0
    }
}

/// Length of `s` without the separators it ends with.
pub open spec fn trimmed_len(s: Seq<char>) -> nat
    decreases s.len(),
{
    if s.len() > 0 && is_separator(s.last()) {
        trimmed_len(s.drop_last())
    } else {
        s.len()
    }
}

/// `s` without the separators it ends with.
pub open spec fn trimmed(s: Seq<char>) -> Seq<char> {
    s.take(trimmed_len(s) as int)
}

/// What is left of `path` when `root` and the separators after it are taken
/// off the front. A path that is not under `root` is left whole.
pub open spec fn below_root(root: Seq<char>, path: Seq<char>) -> Seq<char> {
    if under_root(root, path) {
        let rest = path.skip(root.len() as int);
        rest.skip(leading_separators(rest) as int)
    } else {
        path
    }
}

/// The part of `path` below `root`, with forward slashes only and without
/// the separators that `path` ends with. A path that is not under `root`
/// keeps all its components.
pub open spec fn relative_path(root: Seq<char>, path: Seq<char>) -> Seq<char> {
    normalized(trimmed(below_root(root, path)))
}

/// Length of `s` without the characters that follow its last separator; 0 if
/// it has no separator.
pub open spec fn stem_len(s: Seq<char>) -> nat
    decreases s.len(),
{
    if s.len() > 0 && !is_separator(s.last()) {
        stem_len(s.drop_last())
    } else {
        s.len()
    }
}

/// Length of the directory part of `s`. Separators that `s` ends with are
/// passed over, then the last component, then every separator that stands
/// directly before it: a repeated separator counts as one.
pub open spec fn parent_len(s: Seq<char>) -> nat {
    let whole = s.take(trimmed_len(s) as int);
    let stem = whole.take(stem_len(whole) as int);
    trimmed_len(stem)
}

/// The directory part of `s`: what stands before its last component, without
/// the separators between the two. It never ends with a separator.
pub open spec fn parent_part(s: Seq<char>) -> Seq<char> {
    s.take(parent_len(s) as int)
}

/// The remote form of a local path.
///
/// In "preserve" form the relative path is kept whole and a directory gets a
/// trailing `/`. Otherwise a file is addressed by the directory that holds it,
/// and a directory by itself.
pub open spec fn remote_form(
    root: Seq<char>,
    path: Seq<char>,
    is_file: bool,
    preserve_file: bool,
) -> Seq<char> {
    let rel = relative_path(root, path);
    if preserve_file {
        if is_file {
            rel
        } else {
            rel.push('/')
        }
    } else {
        if is_file {
            parent_part(rel)
        } else {
            rel
        }
    }
}

/// `String::from_iter` over characters: the string that holds exactly these
/// characters, in order.
#[verifier::external_body]
pub(crate) fn text_of(chars: &Vec<char>) -> (s: String)
    ensures
        s@ == chars@,
{
    String::from_iter(chars.iter())
}

/// The characters of `s`, in order.
pub fn chars_of(s: &str) -> (v: Vec<char>)
    ensures
        v@ == s@,
{
    let n: usize = s.unicode_len();
    let mut v: Vec<char> = Vec::new();
    let mut i: usize = 0;
    while i < n
        invariant
            n == s@.len(),
            i <= n,
            v@ == s@.take(i as int),
        decreases n - i,
    {
        v.push(s.get_char(i));
        i += 1;
    }
    v
}

/// Executable form of [`is_separator`].
pub fn separator(c: char) -> (b: bool)
    ensures
        b == is_separator(c),
{
    c == '/' || c == '\\'
}

/// The characters of `s` from `from` up to `to`, with every separator turned
/// into `/`.
pub fn normalize_chars(s: &Vec<char>, from: usize, to: usize) -> (out: Vec<char>)
    requires
        from <= to <= s.len(),
    ensures
        out@ == normalized(s@.subrange(from as int, to as int)),
{
    let mut out: Vec<char> = Vec::new();
    let mut i: usize = from;
    while i < to
        invariant
            from <= i <= to <= s.len(),
            out@ == normalized(s@.subrange(from as int, i as int)),
        decreases to - i,
    {
        let c = s[i];
        out.push(if separator(c) { '/' } else { c });
        i += 1;
        assert(out@ =~= normalized(s@.subrange(from as int, i as int)));
    }
    out
}

/// Turns every separator of `s` into `/`.
pub fn normalize_separators(s: &str) -> (out: String)
    ensures
        out@ == normalized(s@),
{
    let v = chars_of(s);
    assert(v@.subrange(0, v.len() as int) =~= v@);
    let out = normalize_chars(&v, 0, v.len());
    text_of(&out)
}

/// Decides [`under_root`].
pub fn is_under_root(root: &Vec<char>, path: &Vec<char>) -> (b: bool)
    ensures
        b == under_root(root@, path@),
{
    if root.len() > path.len() {
        return false;
    }
    let mut i: usize = 0;
    while i < root.len()
        invariant
            i <= root.len() <= path.len(),
            forall|j: int| 0 <= j < i ==> unify(#[trigger] root@[j]) == unify(path@[j]),
        decreases root.len() - i,
    {
        let a = root[i];
        let b = path[i];
        let ua = if separator(a) { '/' } else { a };
        let ub = if separator(b) { '/' } else { b };
        if ua != ub {
            return false;
        }
        i += 1;
    }
    root.len() == path.len() || separator(path[root.len()]) || (root.len() > 0 && separator(
        root[root.len() - 1],
    ))
}

/// Skipping `k` leading separators leaves the rest of them.
pub proof fn lemma_leading_separators_step(s: Seq<char>, k: int)
    requires
        0 <= k < s.len(),
        forall|j: int| 0 <= j <= k ==> is_separator(#[trigger] s[j]),
    ensures
        leading_separators(s) == k + 1 + leading_separators(s.skip(k + 1)),
    decreases k,
{
    if k == 0 {
        assert(s.drop_first() =~= s.skip(1));
    } else {
        let t = s.drop_first();
        assert forall|j: int| 0 <= j <= k - 1 implies is_separator(#[trigger] t[j]) by {
            assert(t[j] == s[j + 1]);
        }
        lemma_leading_separators_step(t, k - 1);
        assert(t.skip(k) =~= s.skip(k + 1));
    }
}

/// The relative form of `path` under `root`.
pub fn relative_chars(root: &Vec<char>, path: &Vec<char>) -> (out: Vec<char>)
    ensures
        out@ == relative_path(root@, path@),
{
    let mut start: usize = 0;
    if is_under_root(root, path) {
        let ghost rest = path@.skip(root.len() as int);
        start = root.len();
        while start < path.len() && separator(path[start])
            invariant
                root.len() <= start <= path.len(),
                rest == path@.skip(root.len() as int),
                forall|j: int| 0 <= j < start - root.len() ==> is_separator(#[trigger] rest[j]),
            decreases path.len() - start,
        {
            start += 1;
        }
        proof {
            let k = start - root.len();
            if k > 0 {
                lemma_leading_separators_step(rest, k - 1);
            }
            assert(rest.skip(k) =~= path@.skip(start as int));
            assert(leading_separators(rest.skip(k)) == 0);
            assert(rest.skip(0) =~= rest);
        }
    } else {
        assert(path@.skip(0) =~= path@);
    }
    let ghost body = path@.skip(start as int);
    assert(body == below_root(root@, path@));
    let mut end: usize = path.len();
    assert(body.take(end - start) =~= body);
    while end > start && separator(path[end - 1])
        invariant
            start <= end <= path.len(),
            body == path@.skip(start as int),
            trimmed_len(body) == trimmed_len(body.take(end - start)),
        decreases end,
    {
        assert(body.take(end - start).last() == path@[end - 1]);
        assert(body.take(end - start).drop_last() =~= body.take(end - start - 1));
        end -= 1;
    }
    assert(end > start ==> body.take(end - start).last() == path@[end - 1]);
    assert(trimmed_len(body) == end - start);
    assert(trimmed(body) =~= path@.subrange(start as int, end as int));
    normalize_chars(path, start, end)
}

/// Length of the first `end` characters of `s` without the separators they
/// end with.
pub fn trimmed_length(s: &Vec<char>, end: usize) -> (n: usize)
    requires
        end <= s.len(),
    ensures
        n == trimmed_len(s@.take(end as int)),
        n <= end,
{
    let mut i: usize = end;
    while i > 0 && separator(s[i - 1])
        invariant
            i <= end <= s.len(),
            trimmed_len(s@.take(end as int)) == trimmed_len(s@.take(i as int)),
        decreases i,
    {
        assert(s@.take(i as int).last() == s@[i - 1]);
        assert(s@.take(i as int).drop_last() =~= s@.take(i - 1));
        i -= 1;
    }
    assert(i > 0 ==> s@.take(i as int).last() == s@[i - 1]);
    i
}

/// Length of the first `end` characters of `s` without what follows their last
/// separator.
pub fn stem_length(s: &Vec<char>, end: usize) -> (n: usize)
    requires
        end <= s.len(),
    ensures
        n == stem_len(s@.take(end as int)),
        n <= end,
{
    let mut i: usize = end;
    while i > 0 && !separator(s[i - 1])
        invariant
            i <= end <= s.len(),
            stem_len(s@.take(end as int)) == stem_len(s@.take(i as int)),
        decreases i,
    {
        assert(s@.take(i as int).last() == s@[i - 1]);
        assert(s@.take(i as int).drop_last() =~= s@.take(i - 1));
        i -= 1;
    }
    assert(i > 0 ==> s@.take(i as int).last() == s@[i - 1]);
    i
}

/// Length of the directory part of `s`.
pub fn parent_length(s: &Vec<char>) -> (n: usize)
    ensures
        n == parent_len(s@),
        n <= s.len(),
{
    assert(s@.take(s.len() as int) =~= s@);
    let whole = trimmed_length(s, s.len());
    let stem = stem_length(s, whole);
    assert(s@.take(whole as int).take(stem as int) =~= s@.take(stem as int));
    trimmed_length(s, stem)
}

/// What is cut at its trimmed length does not end with a separator.
pub proof fn lemma_trimmed_has_no_trailing_separator(s: Seq<char>)
    ensures
        trimmed_len(s) <= s.len(),
        trimmed_len(s) > 0 ==> !is_separator(s[trimmed_len(s) - 1]),
    decreases s.len(),
{
    if s.len() > 0 && is_separator(s.last()) {
        lemma_trimmed_has_no_trailing_separator(s.drop_last());
    }
}

/// The directory part of a path never ends with a separator, however many
/// separators stand before the last component.
pub proof fn lemma_parent_has_no_trailing_separator(s: Seq<char>)
    ensures
        parent_len(s) <= s.len(),
        parent_part(s).len() > 0 ==> !is_separator(parent_part(s).last()),
{
    lemma_trimmed_has_no_trailing_separator(s);
    let whole = s.take(trimmed_len(s) as int);
    lemma_stem_is_shorter(whole);
    let stem = whole.take(stem_len(whole) as int);
    lemma_trimmed_has_no_trailing_separator(stem);
}

/// The stem of a text is no longer than the text.
pub proof fn lemma_stem_is_shorter(s: Seq<char>)
    ensures
        stem_len(s) <= s.len(),
    decreases s.len(),
{
    if s.len() > 0 && !is_separator(s.last()) {
        lemma_stem_is_shorter(s.drop_last());
    }
}

/// Translates a local path into the form the remote side is addressed by.
///
/// `is_file` is what the snapshot recorded for the path. See [`remote_form`].
pub fn upload_path(root: &str, path: &str, is_file: bool, preserve_file: bool) -> (out: String)
    ensures
        out@ == remote_form(root@, path@, is_file, preserve_file),
{
    let r = chars_of(root);
    let p = chars_of(path);
    let mut rel = relative_chars(&r, &p);
    if preserve_file {
        if !is_file {
            rel.push('/');
        }
    } else {
        if is_file {
            let n = parent_length(&rel);
            rel.truncate(n);
            assert(rel@ =~= parent_part(relative_path(root@, path@)));
        }
    }
    text_of(&rel)
}

/// Normalising twice gives what normalising once gives.
pub proof fn lemma_normalized_idempotent(s: Seq<char>)
    ensures
        normalized(normalized(s)) == normalized(s),
{
    assert(normalized(normalized(s)) =~= normalized(s));
}

/// Where `s` is longer than its trimmed length, a separator stands there.
pub proof fn lemma_trimmed_off_is_separator(s: Seq<char>)
    ensures
        trimmed_len(s) <= s.len(),
        trimmed_len(s) < s.len() ==> is_separator(s[trimmed_len(s) as int]),
    decreases s.len(),
{
    if s.len() > 0 && is_separator(s.last()) {
        lemma_trimmed_off_is_separator(s.drop_last());
    }
}

/// A translated path is in its final form: it holds no backslash and does
/// not end with a separator, so normalising and trimming leave it as it is.
pub proof fn lemma_relative_path_is_final(root: Seq<char>, path: Seq<char>)
    ensures
        normalized(trimmed(relative_path(root, path))) == relative_path(root, path),
        relative_path(root, path).len() > 0 ==> !is_separator(relative_path(root, path).last()),
{
    let body = below_root(root, path);
    let t = relative_path(root, path);
    lemma_trimmed_has_no_trailing_separator(body);
    if t.len() > 0 {
        assert(t.last() == unify(body[trimmed_len(body) - 1]));
    }
    assert(trimmed(t) =~= t);
    lemma_normalized_idempotent(trimmed(body));
}

/// Translation is stable: a path that was translated, and does not itself lie
/// under the root, is left as it is by a second translation.
pub proof fn lemma_translation_stable(root: Seq<char>, path: Seq<char>)
    requires
        !under_root(root, relative_path(root, path)),
    ensures
        relative_path(root, relative_path(root, path)) == relative_path(root, path),
{
    lemma_relative_path_is_final(root, path);
}

/// What is left after the leading separators does not start with one.
pub proof fn lemma_after_leading_separators(s: Seq<char>)
    ensures
        leading_separators(s) <= s.len(),
        leading_separators(s) < s.len() ==> !is_separator(s[leading_separators(s) as int]),
    decreases s.len(),
{
    if s.len() > 0 && is_separator(s[0]) {
        lemma_after_leading_separators(s.drop_first());
    }
}

/// Under an absolute root, one that starts with a separator, translating twice
/// gives what translating once gives.
pub proof fn lemma_translation_idempotent(root: Seq<char>, path: Seq<char>)
    requires
        root.len() > 0,
        is_separator(root[0]),
    ensures
        relative_path(root, relative_path(root, path)) == relative_path(root, path),
{
    let body = below_root(root, path);
    let t = relative_path(root, path);
    lemma_trimmed_off_is_separator(body);
    if under_root(root, path) {
        let rest = path.skip(root.len() as int);
        lemma_after_leading_separators(rest);
        if t.len() > 0 {
            assert(t[0] == unify(body[0]));
            assert(!is_separator(t[0]));
            assert(unify(root[0]) != unify(t[0]));
        }
        assert(!under_root(root, t));
    } else {
        // `t` is `path` without its last separators and up to the kind of
        // separator, so it is under `root` only if `path` is.
        if under_root(root, t) {
            assert forall|i: int| 0 <= i < root.len() implies unify(#[trigger] root[i]) == unify(
                path[i],
            ) by {
                assert(unify(root[i]) == unify(t[i]));
            }
            if root.len() < t.len() {
                assert(t[root.len() as int] == unify(path[root.len() as int]));
            }
            assert(false);
        }
    }
    lemma_translation_stable(root, path);
}

/// The shape of a remote form. It holds no backslash. It ends with a slash
/// exactly for a directory in preserve form. And for a path that lies below
/// the root, not the root itself, it does not start with a slash.
pub proof fn lemma_remote_form_shape(
    root: Seq<char>,
    path: Seq<char>,
    is_file: bool,
    preserve_file: bool,
)
    ensures
        forall|i: int|
            0 <= i < remote_form(root, path, is_file, preserve_file).len() ==> #[trigger] remote_form(
                root,
                path,
                is_file,
                preserve_file,
            )[i] != '\\',
        (remote_form(root, path, is_file, preserve_file).len() > 0 && remote_form(
            root,
            path,
            is_file,
            preserve_file,
        ).last() == '/') <==> (preserve_file && !is_file),
        under_root(root, path) && relative_path(root, path).len() > 0 && remote_form(
            root,
            path,
            is_file,
            preserve_file,
        ).len() > 0 ==> remote_form(root, path, is_file, preserve_file)[0] != '/',
{
    let rel = relative_path(root, path);
    let body = below_root(root, path);
    lemma_relative_path_is_final(root, path);
    lemma_parent_has_no_trailing_separator(rel);
    if under_root(root, path) && rel.len() > 0 {
        let rest = path.skip(root.len() as int);
        lemma_after_leading_separators(rest);
        lemma_trimmed_has_no_trailing_separator(body);
        assert(trimmed(body)[0] == body[0]);
        assert(rel[0] == unify(body[0]));
        assert(!is_separator(rel[0]));
    }
    if !preserve_file && is_file && parent_part(rel).len() > 0 {
        assert(parent_part(rel).last() == rel[parent_len(rel) - 1]);
        assert(parent_part(rel)[0] == rel[0]);
    }
}

} // verus!
