//! From the path of a file to the name of the dependency that it belongs to.
//!
//! Paths are strings. They are taken apart by `std::path`, whose rules for
//! separators, roots and the segments `.` and `..` are not restated here: the
//! contracts name what it answers.

use vstd::prelude::*;
use std::path::Path;
use std::path::PathBuf;

verus! {

/// What `PathBuf::pop` leaves of a path: the path without its last segment,
/// or the path itself where it has no parent.
pub uninterp spec fn path_popped(path: Seq<char>) -> Seq<char>;

/// What `Path::file_name` gives for a path: its last segment, or `None`
/// where it has none to name, as a path that ends in `..` has not.
pub uninterp spec fn path_file_name(path: Seq<char>) -> Option<Seq<char>>;

/// Calls `PathBuf::pop` on the path. Trusted: what is left is what
/// `path_popped` names for the path as it was.
#[verifier::external_body]
fn pop_segment(path: &mut String)
    ensures
        final(path)@ == path_popped(old(path)@),
{
    let mut buf = PathBuf::from(path.as_str());
    buf.pop();
    *path = buf.to_string_lossy().into_owned();
}

/// Calls `Path::file_name` on the path. Trusted: the result is what
/// `path_file_name` names for the path.
#[verifier::external_body]
pub(crate) fn file_name_of(path: &str) -> (r: Option<String>)
    ensures
        match r {
            Some(name) => path_file_name(path@) == Some(name@),
            None => path_file_name(path@) is None,
        },
{
    Path::new(path).file_name().map(|name| name.to_string_lossy().into_owned())
}

/// The directory of the dependency that a file belongs to: one segment up
/// for a file at the root of the dependency, two segments up for a file one
/// directory below it.
pub open spec fn dependency_dir(path: Seq<char>, root: bool) -> Seq<char> {
    if root {
        path_popped(path)
    } else {
        path_popped(path_popped(path))
    }
}

/// The name of the dependency that a file belongs to: the last segment of
/// its directory, if it has one.
pub open spec fn dependency_name(path: Seq<char>, root: bool) -> Option<Seq<char>> {
    path_file_name(dependency_dir(path, root))
}

/// Cuts the path of a file back to the directory of its dependency and
/// returns the name of that directory. `root` says whether the file lies
/// directly in that directory or one directory below it. Where nothing is
/// left to name, the result is `None`.
pub fn get_dependency_name(path: &mut String, root: bool) -> (name: Option<String>)
    ensures
        final(path)@ == dependency_dir(old(path)@, root),
        match name {
            Some(n) => dependency_name(old(path)@, root) == Some(n@),
            None => dependency_name(old(path)@, root) is None,
        },
{
    if root {
        pop_segment(path);
    } else {
        pop_segment(path);
        pop_segment(path);
    }
    file_name_of(path.as_str())
}

} // verus!
