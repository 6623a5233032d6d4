//! The last component of a path, as the standard library reads it.

use vstd::prelude::*;

verus! {

/// The final component of `path` as `std::path::Path::file_name` gives it on
/// the platform the library is built for, where it is valid text; `None`
/// where the path has no such component (it is empty, is a root, or ends in
/// `..`).
pub uninterp spec fn path_file_name(path: Seq<char>) -> Option<Seq<char>>;

/// The name by which a directory is classified: the final component of its
/// path, or the empty name where the path has none.
pub open spec fn directory_name(path: Seq<char>) -> Seq<char> {
    match path_file_name(path) {
        Some(name) => name,
        None => Seq::empty(),
    }
}

/// Calls `std::path::Path::file_name` on `path`. Nothing is proved of this
/// function: its contract only gives the outcome of that call its name,
/// [`path_file_name`].
#[verifier::external_body]
pub(crate) fn file_name<'a>(path: &'a str) -> (name: Option<&'a str>)
    ensures
        match name {
            Some(found) => path_file_name(path@) == Some(found@),
            None => path_file_name(path@) is None,
        },
{
    match std::path::Path::new(path).file_name() {
        Some(component) => component.to_str(),
        None => None,
    }
}

} // verus!
