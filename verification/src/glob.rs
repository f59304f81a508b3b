//! Exclusion patterns: a set of globs, built with the `globset` crate, that
//! tells the scanner which paths to leave out.
use globset::{Glob, GlobSet, GlobSetBuilder};
use vstd::prelude::*;

verus! {

#[verifier::external_type_specification]
#[verifier::external_body]
pub struct ExGlob(globset::Glob);

#[verifier::external_type_specification]
#[verifier::external_body]
pub struct ExGlobSetBuilder(globset::GlobSetBuilder);

#[verifier::external_type_specification]
#[verifier::external_body]
pub struct ExGlobSet(globset::GlobSet);

/// Whether `globset::Glob::new` accepts a pattern.
pub uninterp spec fn spec_glob_parses(pattern: Seq<char>) -> bool;

/// The pattern text a `Glob` was built from.
pub uninterp spec fn glob_source(g: Glob) -> Seq<char>;

/// The patterns added to a builder, in order.
pub uninterp spec fn builder_globs(b: GlobSetBuilder) -> Seq<Seq<char>>;

/// The patterns a built set was made from, in order.
pub uninterp spec fn glob_set_globs(s: GlobSet) -> Seq<Seq<char>>;

/// Whether `GlobSetBuilder::build` succeeds on the given patterns.
pub uninterp spec fn spec_glob_set_builds(patterns: Seq<Seq<char>>) -> bool;

/// Whether some glob among the patterns matches the path, as
/// `GlobSet::is_match` decides it.
pub uninterp spec fn spec_globs_match(patterns: Seq<Seq<char>>, path: Seq<char>) -> bool;

/// Calls `globset::Glob::new`. Claims that it succeeds exactly on the
/// patterns the crate parses, and that the glob it returns keeps the
/// pattern's text (the crate stores it and hands it back from `glob()`).
#[verifier::external_body]
fn glob_new(pattern: &str) -> (r: Option<Glob>)
    ensures
        r is Some <==> spec_glob_parses(pattern@),
        r matches Some(g) ==> glob_source(g) == pattern@,
{
    Glob::new(pattern).ok()
}

/// Calls `globset::GlobSetBuilder::new`, which starts with no patterns.
#[verifier::external_body]
fn builder_new() -> (r: GlobSetBuilder)
    ensures
        builder_globs(r) == Seq::<Seq<char>>::empty(),
{
    GlobSetBuilder::new()
}

/// Calls `globset::GlobSetBuilder::add`, which pushes the glob onto the
/// builder's list.
#[verifier::external_body]
fn builder_add(b: &mut GlobSetBuilder, g: Glob)
    ensures
        builder_globs(*final(b)) == builder_globs(*old(b)).push(glob_source(g)),
{
    b.add(g);
}

/// Calls `globset::GlobSetBuilder::build`. Claims that it succeeds exactly
/// when the crate can compile the added patterns, and that the set it builds
/// holds those patterns.
#[verifier::external_body]
fn builder_build(b: &GlobSetBuilder) -> (r: Option<GlobSet>)
    ensures
        r is Some <==> spec_glob_set_builds(builder_globs(*b)),
        r matches Some(s) ==> glob_set_globs(s) == builder_globs(*b),
{
    b.build().ok()
}

/// Calls `globset::GlobSet::is_match` on the path. Claims only that the
/// answer is the named match of the set's patterns against the path.
#[verifier::external_body]
fn glob_set_is_match(s: &GlobSet, path: &str) -> (r: bool)
    ensures
        r == spec_globs_match(glob_set_globs(*s), path@),
{
    s.is_match(std::path::Path::new(path))
}

/// The patterns that parse, in their order among `patterns`.
pub open spec fn parsed_patterns(patterns: Seq<Seq<char>>) -> Seq<Seq<char>>
    decreases patterns.len(),
{
    if patterns.len() == 0 {
        Seq::empty()
    } else {
        let rest = parsed_patterns(patterns.drop_last());
        if spec_glob_parses(patterns.last()) {
            rest.push(patterns.last())
        } else {
            rest
        }
    }
}

/// The character views of a list of strings.
pub open spec fn string_views(v: Seq<String>) -> Seq<Seq<char>> {
    v.map_values(|s: String| s@)
}

/// A compiled set of exclusion patterns.
#[derive(Debug)]
pub struct ExcludeSet {
    set: GlobSet,
}

impl ExcludeSet {
    /// The patterns the set was built from.
    pub closed spec fn patterns(&self) -> Seq<Seq<char>> {
        glob_set_globs(self.set)
    }

    /// Whether the set excludes the path: some pattern matches it.
    pub fn is_match(&self, path: &str) -> (r: bool)
        ensures
            r == spec_globs_match(self.patterns(), path@),
    {
        glob_set_is_match(&self.set, path)
    }
}

/// Builds the exclusion set. An empty list gives no set; patterns that do
/// not parse are left out; if the remaining patterns cannot be compiled
/// together there is no set either.
pub fn build_excludes(patterns: &Vec<String>) -> (r: Option<ExcludeSet>)
    ensures
        patterns@.len() == 0 ==> r is None,
        patterns@.len() > 0 ==> (r is Some <==> spec_glob_set_builds(
            parsed_patterns(string_views(patterns@)),
        )),
        r matches Some(s) ==> s.patterns() == parsed_patterns(string_views(patterns@)),
{
    if patterns.len() == 0 {
        return None;
    }
    let mut builder = builder_new();
    let mut i: usize = 0;
    while i < patterns.len()
        invariant
            i <= patterns@.len(),
            builder_globs(builder) == parsed_patterns(string_views(patterns@.take(i as int))),
        decreases patterns@.len() - i,
    {
        assert(string_views(patterns@.take(i as int + 1)).drop_last() =~= string_views(
            patterns@.take(i as int),
        ));
        assert(string_views(patterns@.take(i as int + 1)).last() == patterns@[i as int]@);
        match glob_new(patterns[i].as_str()) {
            Some(g) => builder_add(&mut builder, g),
            None => {},
        }
        i += 1;
    }
    assert(patterns@.take(patterns@.len() as int) =~= patterns@);
    match builder_build(&builder) {
        Some(set) => Some(ExcludeSet { set }),
        None => None,
    }
}

} // verus!
