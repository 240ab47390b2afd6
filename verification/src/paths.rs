//! Splitting the name of a file from the directory it lies in.

use vstd::prelude::*;
use std::path::{Path, PathBuf};

verus! {

/// What a path holds: its text. Where the text is no valid Unicode, a
/// replacement character stands for what is not.
pub uninterp spec fn path_text(path: PathBuf) -> Seq<char>;

/// Calls `Path::parent` on `input` read as a path: the path without its last
/// component, if it has one. How a text splits into components depends on
/// the platform.
#[verifier::external_body]
pub(crate) fn path_parent(input: &str) -> Option<PathBuf> {
    Path::new(input).parent().map(|p| p.to_path_buf())
}

/// Calls `Path::file_name` on `input` read as a path: the last component, if
/// the path ends in a name.
#[verifier::external_body]
pub(crate) fn path_file_name(input: &str) -> Option<PathBuf> {
    Path::new(input).file_name().map(|n| PathBuf::from(n))
}

/// Calls `OsStr::is_empty` on the path: whether the path has no text at all.
#[verifier::external_body]
pub(crate) fn path_is_empty(path: &PathBuf) -> (r: bool)
    ensures
        r == (path_text(*path).len() == 0),
{
    path.as_os_str().is_empty()
}

/// Calls `PathBuf::from`: the path that holds the text.
#[verifier::external_body]
pub(crate) fn path_from(text: &str) -> (path: PathBuf)
    ensures
        path_text(path) == text@,
{
    PathBuf::from(text)
}

/// Calls `PathBuf::eq`: whether two paths have the same components.
#[verifier::external_body]
pub(crate) fn path_eq(a: &PathBuf, b: &PathBuf) -> bool {
    a == b
}

} // verus!
