//! Path operations of `std::path`, applied to paths held as UTF-8 strings.
//!
//! Component-wise path semantics (separator handling, `.` components, root
//! prefixes) belong to the standard library; the library names their results
//! here and reasons over those names.  What these names stand for depends on
//! the target platform (on Windows `\` also separates components and drive
//! prefixes count); within one build they are fixed functions of their
//! arguments.

use vstd::prelude::*;

verus! {

/// What `std::path::Path::starts_with` answers for `path` and `base`.
pub uninterp spec fn path_starts_with(path: Seq<char>, base: Seq<char>) -> bool;

/// The text of what `std::path::Path::strip_prefix` returns for `path` and `base`
/// when `base` is a prefix of `path`.
pub uninterp spec fn path_relative(path: Seq<char>, base: Seq<char>) -> Seq<char>;

/// The text of `std::path::Path::file_name` for `path`, or `None` when
/// `path` has no file-name component.
pub uninterp spec fn path_file_name(path: Seq<char>) -> Option<Seq<char>>;

/// The number of items that `std::path::Path::components` yields for `path`.
pub uninterp spec fn path_component_count(path: Seq<char>) -> nat;

/// Calls `std::path::Path::starts_with`: whether `base` is a leading run of
/// whole components of `path`.  The result is named, not described.
#[verifier::external_body]
pub(crate) fn starts_with(path: &str, base: &str) -> (r: bool)
    ensures
        r == path_starts_with(path@, base@),
{
    std::path::Path::new(path).starts_with(base)
}

/// Calls `std::path::Path::strip_prefix`.  Its documentation states that it
/// fails exactly when `starts_with` is false, and (by its examples) that a
/// path stripped of itself leaves the empty path; the remainder it returns is
/// named.
/// The remainder is valid UTF-8 because `path` is, so the conversion to text
/// loses nothing.
#[verifier::external_body]
pub(crate) fn strip_prefix(path: &str, base: &str) -> (r: Option<String>)
    ensures
        r is Some <==> path_starts_with(path@, base@),
        r matches Some(rel) ==> rel@ == path_relative(path@, base@),
        r is Some || path@ != base@,
        r matches Some(rel) ==> (path@ == base@ ==> rel@.len() == 0),
{
    std::path::Path::new(path).strip_prefix(base).ok().map(|p| p.to_string_lossy().into_owned())
}

/// Calls `std::path::Path::file_name`; the name is named by [`path_file_name`].
/// It is valid UTF-8 because `path` is, so the conversion to text loses
/// nothing.
#[verifier::external_body]
pub(crate) fn file_name(path: &str) -> (r: Option<String>)
    ensures
        r is Some <==> path_file_name(path@) is Some,
        r matches Some(n) ==> path_file_name(path@) == Some(n@),
{
    std::path::Path::new(path).file_name().map(|n| n.to_string_lossy().into_owned())
}

/// The file name of `path`, or the empty text when it has none.
pub open spec fn file_name_text(path: Seq<char>) -> Seq<char> {
    match path_file_name(path) {
        Some(n) => n,
        None => Seq::empty(),
    }
}

/// Counts the items of `std::path::Path::components` for `path`.
#[verifier::external_body]
pub(crate) fn component_count(path: &str) -> (r: usize)
    ensures
        r == path_component_count(path@),
{
    std::path::Path::new(path).components().count()
}

} // verus!
