//! The ignore matcher: a set of glob patterns, any of which excludes a path.
//!
//! Glob parsing and matching are done by the `globset` crate. What a pattern
//! means is not restated here; it is named, and the contracts speak of the
//! names. The matcher itself is a plain union of excludes: there is no
//! negation and no precedence among patterns.

use vstd::prelude::*;
use vstd::string::*;
use globset::{Glob, GlobSet, GlobSetBuilder};

verus! {

/// A parsed glob pattern of `globset`.
#[verifier::external_type_specification]
#[verifier::external_body]
pub struct ExGlob(Glob);

/// A growing list of parsed patterns.
#[verifier::external_type_specification]
#[verifier::external_body]
pub struct ExGlobSetBuilder(GlobSetBuilder);

/// A compiled set of patterns.
#[verifier::external_type_specification]
#[verifier::external_body]
pub struct ExGlobSet(GlobSet);

/// The error `globset` reports for a pattern or a set.
#[verifier::external_type_specification]
#[verifier::external_body]
pub struct ExGlobError(globset::Error);

/// Whether `Glob::new` accepts `pattern` as a glob, under the separator rules
/// of the target the crate is compiled for. All globs of this library are
/// parsed by `Glob::new`, that is, with the default options.
pub uninterp spec fn glob_parses(pattern: Seq<char>) -> bool;

/// The pattern text a `Glob` was parsed from, as `Glob::glob` returns it.
pub uninterp spec fn glob_text(glob: Glob) -> Seq<char>;

/// The pattern texts a builder holds, in the order they were added.
pub uninterp spec fn builder_patterns(builder: GlobSetBuilder) -> Seq<Seq<char>>;

/// The pattern texts a set was compiled from, in the order they were added.
pub uninterp spec fn set_patterns(set: GlobSet) -> Seq<Seq<char>>;

/// Whether `GlobSetBuilder::build` can compile these patterns, each parsed
/// with the default options, into one set.
pub uninterp spec fn set_compiles(patterns: Seq<Seq<char>>) -> bool;

/// Whether the glob `pattern`, parsed with the default options, matches
/// `path`, under the separator rules of the target the crate is compiled for.
pub uninterp spec fn glob_matches(pattern: Seq<char>, path: Seq<char>) -> bool;

/// `Glob::new`: parses a pattern with the default options. It succeeds exactly
/// on the patterns that are valid globs, and the glob it returns remembers the
/// text it was parsed from.
#[verifier::external_body]
fn glob_new(pattern: &str) -> (r: Result<Glob, globset::Error>)
    ensures
        r.is_ok() == glob_parses(pattern@),
        r matches Ok(g) ==> glob_text(g) == pattern@,
{
    Glob::new(pattern)
}

/// `GlobSetBuilder::new`: a builder that holds no pattern.
#[verifier::external_body]
fn builder_new() -> (builder: GlobSetBuilder)
    ensures
        builder_patterns(builder) == Seq::<Seq<char>>::empty(),
{
    GlobSetBuilder::new()
}

/// `GlobSetBuilder::add`: appends one parsed pattern to the builder's list.
#[verifier::external_body]
fn builder_add(builder: &mut GlobSetBuilder, glob: Glob)
    ensures
        builder_patterns(*final(builder)) == builder_patterns(*old(builder)).push(glob_text(glob)),
{
    builder.add(glob);
}

/// `GlobSetBuilder::build`: compiles the patterns added so far. Where it
/// succeeds, the set holds exactly the builder's patterns.
#[verifier::external_body]
fn builder_build(builder: &GlobSetBuilder) -> (r: Result<GlobSet, globset::Error>)
    ensures
        r.is_ok() == set_compiles(builder_patterns(*builder)),
        r matches Ok(set) ==> set_patterns(set) == builder_patterns(*builder),
{
    builder.build()
}

/// `GlobSet::is_match`: true exactly if some glob of the set matches the path.
#[verifier::external_body]
fn set_is_match(set: &GlobSet, path: &str) -> (b: bool)
    ensures
        b == (exists|i: int| 0 <= i < set_patterns(*set).len() && glob_matches(#[trigger] set_patterns(*set)[i], path@)),
{
    set.is_match(path)
}

/// Whether some pattern of `patterns` matches `path`.
pub open spec fn any_matches(patterns: Seq<Seq<char>>, path: Seq<char>) -> bool {
    exists|i: int| 0 <= i < patterns.len() && glob_matches(#[trigger] patterns[i], path)
}

/// The patterns every matcher starts with: files that operating systems leave
/// behind in directories.
pub open spec fn builtin_patterns() -> Seq<Seq<char>> {
    seq!["*desktop.ini"@, "*Thumbs.db"@, "*.DS_Store"@]
}

/// The patterns of a matcher built from `user`: the built-in ones, then the
/// caller's, in order.
pub open spec fn all_patterns(user: Seq<Seq<char>>) -> Seq<Seq<char>> {
    builtin_patterns() + user
}

/// Whether `index` is the place of the first pattern of `patterns` that is
/// not a valid glob.
pub open spec fn first_invalid(patterns: Seq<Seq<char>>, index: int) -> bool {
    &&& 0 <= index < patterns.len()
    &&& !glob_parses(patterns[index])
    &&& forall|j: int| 0 <= j < index ==> glob_parses(#[trigger] patterns[j])
}

/// Whether every pattern of `patterns` is a valid glob.
pub open spec fn all_parse(patterns: Seq<Seq<char>>) -> bool {
    forall|j: int| 0 <= j < patterns.len() ==> glob_parses(#[trigger] patterns[j])
}

/// Why a matcher could not be built.
#[derive(Debug, Clone, PartialEq, Eq)]
pub enum PatternError {
    /// `pattern` is not a valid glob. It is the first such pattern, counted
    /// over the built-in patterns followed by the caller's.
    InvalidGlob { pattern: String },
    /// Every pattern is a valid glob, but together they do not compile.
    SetRejected,
}

/// Answers whether a path is excluded from synchronisation.
#[derive(Debug)]
pub struct IgnoreMatcher {
    set: GlobSet,
}

impl IgnoreMatcher {
    /// The patterns of this matcher.
    pub closed spec fn patterns(&self) -> Seq<Seq<char>> {
        set_patterns(self.set)
    }

    /// Whether this matcher excludes `path`: some pattern matches it.
    pub open spec fn excludes(&self, path: Seq<char>) -> bool {
        any_matches(self.patterns(), path)
    }

    /// Parses `pattern` and, if it is a valid glob, adds it to `builder`.
    fn add_pattern(builder: &mut GlobSetBuilder, pattern: &str) -> (ok: bool)
        ensures
            ok == glob_parses(pattern@),
            ok ==> builder_patterns(*final(builder)) == builder_patterns(*old(builder)).push(
                pattern@,
            ),
            !ok ==> builder_patterns(*final(builder)) == builder_patterns(*old(builder)),
    {
        match glob_new(pattern) {
            Ok(glob) => {
                builder_add(builder, glob);
                true
            },
            Err(_) => false,
        }
    }

    /// Builds the matcher for the built-in patterns followed by `user`.
    ///
    /// Fails on the first pattern that is not a valid glob, naming it, and
    /// with `SetRejected` if the patterns are valid but do not compile.
    pub fn new(user: &Vec<String>) -> (r: Result<IgnoreMatcher, PatternError>)
        ensures
            match r {
                Ok(m) => {
                    &&& all_parse(all_patterns(user.deep_view()))
                    &&& set_compiles(all_patterns(user.deep_view()))
                    &&& m.patterns() == all_patterns(user.deep_view())
                },
                Err(PatternError::InvalidGlob { pattern }) => exists|i: int|
                    first_invalid(all_patterns(user.deep_view()), i) && #[trigger] all_patterns(
                        user.deep_view(),
                    )[i] == pattern@,
                Err(PatternError::SetRejected) => {
                    &&& all_parse(all_patterns(user.deep_view()))
                    &&& !set_compiles(all_patterns(user.deep_view()))
                },
            },
    {
        let ghost all = all_patterns(user.deep_view());
        let mut builder = builder_new();
        if !Self::add_pattern(&mut builder, "*desktop.ini") {
            assert(first_invalid(all, 0) && all[0] == "*desktop.ini"@);
            return Err(PatternError::InvalidGlob { pattern: String::from_str("*desktop.ini") });
        }
        if !Self::add_pattern(&mut builder, "*Thumbs.db") {
            assert(first_invalid(all, 1) && all[1] == "*Thumbs.db"@);
            return Err(PatternError::InvalidGlob { pattern: String::from_str("*Thumbs.db") });
        }
        if !Self::add_pattern(&mut builder, "*.DS_Store") {
            assert(first_invalid(all, 2) && all[2] == "*.DS_Store"@);
            return Err(PatternError::InvalidGlob { pattern: String::from_str("*.DS_Store") });
        }
        assert(builder_patterns(builder) =~= all.take(3));
        let mut i: usize = 0;
        while i < user.len()
            invariant
                i <= user.len(),
                all == all_patterns(user.deep_view()),
                all.len() == user.len() + 3,
                builder_patterns(builder) == all.take(i + 3),
                forall|j: int| 0 <= j < i + 3 ==> glob_parses(#[trigger] all[j]),
            decreases user.len() - i,
        {
            assert(all[i + 3] == user[i as int]@);
            if !Self::add_pattern(&mut builder, user[i].as_str()) {
                assert(first_invalid(all, i + 3));
                return Err(PatternError::InvalidGlob { pattern: user[i].clone() });
            }
            assert(all.take(i + 3).push(all[i + 3]) =~= all.take(i + 4));
            i += 1;
        }
        assert(all.take(i + 3) =~= all);
        match builder_build(&builder) {
            Ok(set) => Ok(IgnoreMatcher { set }),
            Err(_) => Err(PatternError::SetRejected),
        }
    }

    /// Whether `path` is excluded.
    pub fn matches(&self, path: &str) -> (b: bool)
        ensures
            b == self.excludes(path@),
    {
        set_is_match(&self.set, path)
    }
}

} // verus!
