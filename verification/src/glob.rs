//! Glob matching through the `globset` crate.
//!
//! The compiled matchers of `globset` are opaque; each value the library holds
//! records, as ghost state, the pattern texts it was built from, so that what a
//! match answers can be stated over those texts.  Only the trusted functions
//! below set that ghost state.  How `globset` treats separators and `\`
//! escapes depends on the target platform; within one build the names below
//! are fixed functions of their arguments.

use vstd::prelude::*;

verus! {

#[verifier::external_type_specification]
#[verifier::external_body]
pub struct ExGlob(globset::Glob);

#[verifier::external_type_specification]
#[verifier::external_body]
pub struct ExGlobSet(globset::GlobSet);

#[verifier::external_type_specification]
#[verifier::external_body]
pub struct ExGlobSetBuilder(globset::GlobSetBuilder);

#[verifier::external_type_specification]
#[verifier::external_body]
pub struct ExGlobError(globset::Error);

/// Whether `globset::Glob::new` accepts `pattern`.
pub uninterp spec fn glob_parses(pattern: Seq<char>) -> bool;

/// Whether `globset::GlobSetBuilder::build` succeeds for a builder holding
/// the globs parsed from `patterns`, in that order.
pub uninterp spec fn glob_set_compiles(patterns: Seq<Seq<char>>) -> bool;

/// Whether the glob parsed from `pattern` (default options) matches `path`.
pub uninterp spec fn glob_matches(pattern: Seq<char>, path: Seq<char>) -> bool;

/// A parsed glob together with the pattern text it was parsed from.
pub struct ParsedGlob {
    glob: globset::Glob,
    source: Ghost<Seq<char>>,
}

impl ParsedGlob {
    /// The pattern text this glob was parsed from.
    pub closed spec fn source(&self) -> Seq<char> {
        self.source@
    }
}

/// A glob-set builder together with the pattern texts added to it.
pub struct PatternSetBuilder {
    builder: globset::GlobSetBuilder,
    sources: Ghost<Seq<Seq<char>>>,
}

impl PatternSetBuilder {
    /// The pattern texts added so far, in order.
    pub closed spec fn sources(&self) -> Seq<Seq<char>> {
        self.sources@
    }
}

/// A compiled glob set together with the pattern texts it was built from.
pub struct PatternSet {
    set: globset::GlobSet,
    sources: Ghost<Seq<Seq<char>>>,
}

impl PatternSet {
    /// The pattern texts the set was built from, in order.
    pub closed spec fn sources(&self) -> Seq<Seq<char>> {
        self.sources@
    }
}

/// Calls `globset::Glob::new`; success is named by [`glob_parses`].
#[verifier::external_body]
pub(crate) fn glob_new(pattern: &str) -> (r: Result<ParsedGlob, globset::Error>)
    ensures
        r is Ok <==> glob_parses(pattern@),
        r matches Ok(g) ==> g.source() == pattern@,
{
    globset::Glob::new(pattern).map(|glob| ParsedGlob { glob, source: Ghost(pattern@) })
}

/// Calls `globset::GlobSetBuilder::new`, which starts with no patterns.
#[verifier::external_body]
pub(crate) fn builder_new() -> (r: PatternSetBuilder)
    ensures
        r.sources() == Seq::<Seq<char>>::empty(),
{
    PatternSetBuilder { builder: globset::GlobSetBuilder::new(), sources: Ghost(Seq::empty()) }
}

/// Calls `globset::GlobSetBuilder::add`, which appends the glob to the builder.
#[verifier::external_body]
pub(crate) fn builder_add(b: &mut PatternSetBuilder, g: ParsedGlob)
    ensures
        final(b).sources() == old(b).sources().push(g.source()),
{
    b.builder.add(g.glob);
    b.sources = Ghost(b.sources@.push(g.source@));
}

/// Calls `globset::GlobSetBuilder::build`; success is named by
/// [`glob_set_compiles`] over the builder's patterns.
#[verifier::external_body]
pub(crate) fn builder_build(b: &PatternSetBuilder) -> (r: Result<PatternSet, globset::Error>)
    ensures
        r is Ok <==> glob_set_compiles(b.sources()),
        r matches Ok(s) ==> s.sources() == b.sources(),
{
    b.builder.build().map(|set| PatternSet { set, sources: Ghost(b.sources@) })
}

/// Calls `globset::GlobSet::is_match`, which (as its documentation says) is
/// true exactly when some glob of the set matches `path`.
#[verifier::external_body]
pub(crate) fn set_is_match(s: &PatternSet, path: &str) -> (r: bool)
    ensures
        r == (exists|i: int| 0 <= i < s.sources().len() && glob_matches(s.sources()[i], path@)),
{
    s.set.is_match(path)
}

/// Compile `pattern` into a set holding that single glob; `None` when the
/// pattern does not parse or the set does not compile.
pub(crate) fn build_glob_set(pattern: &str) -> (r: Option<PatternSet>)
    ensures
        r is Some <==> glob_parses(pattern@) && glob_set_compiles(seq![pattern@]),
        r matches Some(s) ==> s.sources() == seq![pattern@],
{
    let glob = match glob_new(pattern) {
        Ok(g) => g,
        Err(_) => return None,
    };
    let mut builder = builder_new();
    builder_add(&mut builder, glob);
    assert(builder.sources() =~= seq![pattern@]);
    match builder_build(&builder) {
        Ok(s) => Some(s),
        Err(_) => None,
    }
}


} // verus!
