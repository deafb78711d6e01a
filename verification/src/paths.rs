//! Path arithmetic, borrowed from `std::path` and given names that contracts can speak of.
//!
//! A path is handled as text. What the standard library computes from one is not spelled out
//! here: each result has a name, and the three private functions below are believed, without
//! proof, to return what their name stands for on the platform the library is built for.

use vstd::prelude::*;

verus! {

/// The path of the entry called `name` inside `directory`, as `std::path::Path::join` builds it.
pub uninterp spec fn joined_path(directory: Seq<char>, name: Seq<char>) -> Seq<char>;

/// The last component of `path`, as `std::path::Path::file_name` finds it; `None` where the
/// path has none.
pub uninterp spec fn final_component(path: Seq<char>) -> Option<Seq<char>>;

/// What is left of `path` once the leading `base` is taken away, as
/// `std::path::Path::strip_prefix` computes it; `None` where `path` does not begin with `base`.
pub uninterp spec fn path_without_prefix(path: Seq<char>, base: Seq<char>) -> Option<Seq<char>>;

/// The name a directory at `path` goes by: its last component, or nothing where it has none.
pub open spec fn folder_name_of(path: Seq<char>) -> Seq<char> {
    match final_component(path) {
        Some(name) => name,
        None => Seq::empty(),
    }
}

/// `directory` as seen from `base`: the part behind `base`, or all of `directory` where it does
/// not lie under `base`.
pub open spec fn relative_folder_of(directory: Seq<char>, base: Seq<char>) -> Seq<char> {
    match path_without_prefix(directory, base) {
        Some(rest) => rest,
        None => directory,
    }
}

/// Calls `std::path::Path::join`. Trusted: the text of the path that comes back is
/// `joined_path` of the two arguments.
#[verifier::external_body]
pub(crate) fn join_path(directory: &str, name: &str) -> (joined: String)
    ensures
        joined@ == joined_path(directory@, name@),
{
    std::path::Path::new(directory).join(name).to_string_lossy().into_owned()
}

/// Calls `std::path::Path::file_name`. Trusted: the text of the component that comes back, if
/// one does, is `final_component` of the argument.
#[verifier::external_body]
pub(crate) fn file_name(path: &str) -> (name: Option<String>)
    ensures
        name.deep_view() == final_component(path@),
{
    match std::path::Path::new(path).file_name() {
        Some(name) => Some(name.to_string_lossy().into_owned()),
        None => None,
    }
}

/// Calls `std::path::Path::strip_prefix`. Trusted: the text of the path that comes back, if
/// one does, is `path_without_prefix` of the two arguments, and an error stands for `None`.
#[verifier::external_body]
pub(crate) fn strip_prefix(path: &str, base: &str) -> (rest: Option<String>)
    ensures
        rest.deep_view() == path_without_prefix(path@, base@),
{
    match std::path::Path::new(path).strip_prefix(base) {
        Ok(rest) => Some(rest.to_string_lossy().into_owned()),
        Err(_) => None,
    }
}

/// The name found for a directory, or the empty name where none was found.
pub fn name_or_empty(found: Option<String>) -> (name: String)
    ensures
        name@ == match found.deep_view() {
            Some(text) => text,
            None => Seq::empty(),
        },
{
    match found {
        Some(name) => name,
        None => String::new(),
    }
}

/// The remainder found behind a base path, or the whole path where there was none.
pub fn rest_or_whole(rest: Option<String>, whole: &str) -> (folder: String)
    ensures
        folder@ == match rest.deep_view() {
            Some(text) => text,
            None => whole@,
        },
{
    match rest {
        Some(folder) => folder,
        None => whole.to_owned(),
    }
}

/// The name that the directory at `path` goes by, empty where the path ends in no name.
pub fn folder_name(path: &str) -> (name: String)
    ensures
        name@ == folder_name_of(path@),
{
    name_or_empty(file_name(path))
}

/// `directory` written relative to `base_path`; unchanged where it does not lie under it.
pub fn relative_folder(directory: &str, base_path: &str) -> (folder: String)
    ensures
        folder@ == relative_folder_of(directory@, base_path@),
{
    rest_or_whole(strip_prefix(directory, base_path), directory)
}

} // verus!
