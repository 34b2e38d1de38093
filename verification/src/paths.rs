//! File system paths, held as the `String`s that `to_string_lossy` gives.
//!
//! How a path splits into components is decided by `std::path` for the
//! platform the library is built for; the three operations used here are
//! named and called, not rebuilt.
use vstd::prelude::*;

verus! {

/// The final component that `Path::file_name` finds in `path`, if any.
pub uninterp spec fn path_file_name(path: Seq<char>) -> Option<Seq<char>>;

/// The path that `Path::parent` gives for `path`, if any.
pub uninterp spec fn path_parent(path: Seq<char>) -> Option<Seq<char>>;

/// The path that `Path::join` builds from `base` and `name`.
pub uninterp spec fn path_join(base: Seq<char>, name: Seq<char>) -> Seq<char>;

/// Calls `Path::file_name` on `path`; the contract claims that the result is
/// `path_file_name(path@)`.  A name taken from a `&str` is valid UTF-8, so
/// `to_string_lossy` keeps it as it is.
#[verifier::external_body]
pub(crate) fn file_name(path: &str) -> (r: Option<String>)
    ensures
        r matches Some(name) ==> path_file_name(path@) == Some(name@),
        r is None ==> path_file_name(path@) is None,
{
    match std::path::Path::new(path).file_name() {
        Some(name) => Some(name.to_string_lossy().into_owned()),
        None => None,
    }
}

/// Calls `Path::parent` on `path`; the contract claims that the result is
/// `path_parent(path@)`.
#[verifier::external_body]
pub(crate) fn parent(path: &str) -> (r: Option<String>)
    ensures
        r matches Some(p) ==> path_parent(path@) == Some(p@),
        r is None ==> path_parent(path@) is None,
{
    match std::path::Path::new(path).parent() {
        Some(p) => Some(p.to_string_lossy().into_owned()),
        None => None,
    }
}

/// A single relative path component made of ASCII letters, digits and dashes.
pub open spec fn is_plain_name(s: Seq<char>) -> bool {
    &&& s.len() > 0
    &&& forall|i: int| 0 <= i < s.len() ==> crate::text::is_ascii_alnum(#[trigger] s[i]) || s[i] == '-'
}

/// Calls `Path::join`; the contract claims that the result is
/// `path_join(base@, name@)`, and that joining a plain relative name
/// appends it as the final component, which `Path::file_name` then gives back.
#[verifier::external_body]
pub(crate) fn join(base: &str, name: &str) -> (r: String)
    ensures
        r@ == path_join(base@, name@),
        is_plain_name(name@) ==> path_file_name(r@) == Some(name@),
{
    std::path::Path::new(base).join(name).to_string_lossy().into_owned()
}

} // verus!
