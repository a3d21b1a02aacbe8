//! The parts of a file path that the resolver reads, computed by `std::path`.
//!
//! Paths are held as text. Each function here hands its text to `std::path::Path`
//! and returns the part asked for as text again; `None` where `Path` has no such
//! part or the part is not valid text.
use vstd::prelude::*;

verus! {

/// What `Path::file_stem` gives for a path, as text.
pub uninterp spec fn file_stem_of(p: Seq<char>) -> Option<Seq<char>>;

/// What `Path::parent` gives for a path, as text.
pub uninterp spec fn parent_of(p: Seq<char>) -> Option<Seq<char>>;

/// What `Path::join` gives for a base path and a second path, as text.
pub uninterp spec fn joined_of(base: Seq<char>, rel: Seq<char>) -> Option<Seq<char>>;

/// The text that an optional string holds.
pub open spec fn opt_view(o: Option<String>) -> Option<Seq<char>> {
    match o {
        Some(t) => Some(t@),
        None => None,
    }
}

/// Relies on `std::path::Path::file_stem` (with `OsStr::to_str`): the file name
/// of `p` without its last extension.
#[verifier::external_body]
pub(crate) fn file_stem(p: &str) -> (r: Option<String>)
    ensures
        opt_view(r) == file_stem_of(p@),
{
    match std::path::Path::new(p).file_stem() {
        Some(stem) => match stem.to_str() {
            Some(t) => Some(t.to_string()),
            None => None,
        },
        None => None,
    }
}

/// Relies on `std::path::Path::parent` (with `Path::to_str`): `p` without its
/// last component; `None` for a root or an empty path.
#[verifier::external_body]
pub(crate) fn parent(p: &str) -> (r: Option<String>)
    ensures
        opt_view(r) == parent_of(p@),
{
    match std::path::Path::new(p).parent() {
        Some(dir) => match dir.to_str() {
            Some(t) => Some(t.to_string()),
            None => None,
        },
        None => None,
    }
}

/// Relies on `std::path::Path::join` (with `Path::to_str`): `rel` appended to
/// `base` with a separator, or `rel` alone where it is absolute.
#[verifier::external_body]
pub(crate) fn join(base: &str, rel: &str) -> (r: Option<String>)
    ensures
        opt_view(r) == joined_of(base@, rel@),
{
    match std::path::Path::new(base).join(rel).to_str() {
        Some(t) => Some(t.to_string()),
        None => None,
    }
}

} // verus!
