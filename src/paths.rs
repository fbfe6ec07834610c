//! Path questions the engine asks of the standard library.
use vstd::prelude::*;

verus! {

/// Whether `base` is a prefix of `path`, compared component by component.
pub uninterp spec fn path_starts_with(path: Seq<char>, base: Seq<char>) -> bool;

/// Whether `path` is relative (has no root) on the platform the library runs on.
pub uninterp spec fn path_is_relative(path: Seq<char>) -> bool;

/// What is left of `path` once its component-wise prefix `base` is taken off.
pub uninterp spec fn path_stripped(path: Seq<char>, base: Seq<char>) -> Seq<char>;

/// Relies on std::path::Path::strip_prefix: it fails exactly when `base` is not
/// a component-wise prefix of `path` (when `starts_with` is false), and otherwise
/// gives the rest of the path, a function of the two texts alone.
#[verifier::external_body]
pub(crate) fn strip_path_prefix(path: &String, base: &String) -> (r: Option<String>)
    ensures
        r is Some <==> path_starts_with(path@, base@),
        r matches Some(s) ==> s@ == path_stripped(path@, base@),
{
    match std::path::Path::new(path.as_str()).strip_prefix(base.as_str()) {
        Ok(rest) => Some(rest.to_string_lossy().into_owned()),
        Err(_) => None,
    }
}

/// Relies on std::path::Path::starts_with: whether `base` is a component-wise
/// prefix of `path`; a function of the two texts alone.
#[verifier::external_body]
pub(crate) fn starts_with_path(path: &String, base: &String) -> (r: bool)
    ensures
        r == path_starts_with(path@, base@),
{
    std::path::Path::new(path.as_str()).starts_with(base.as_str())
}

/// Relies on std::path::Path::is_relative: whether the path has no root; a
/// function of the text alone.
#[verifier::external_body]
pub(crate) fn is_relative_path(path: &String) -> (r: bool)
    ensures
        r == path_is_relative(path@),
{
    std::path::Path::new(path.as_str()).is_relative()
}

} // verus!
