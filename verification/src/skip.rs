//! Which directories a walk leaves out.

use vstd::prelude::*;
use crate::paths::{folder_name, folder_name_of};

verus! {

/// Whether the directory at `path` is left out: its own name is on the skip-list. The names of
/// the directories above it play no part.
pub open spec fn is_skipped(path: Seq<char>, skip: Seq<Seq<char>>) -> bool {
    skip.contains(folder_name_of(path))
}

/// Whether a directory called `folder_name` is left out of the walk: its name is, letter for
/// letter, one of `skip_folders`.
pub fn should_skip_folder(folder_name: &str, skip_folders: &[String]) -> (skip: bool)
    ensures
        skip == skip_folders.deep_view().contains(folder_name@),
{
    let wanted = folder_name.to_owned();
    let mut i: usize = 0;
    while i < skip_folders.len()
        invariant
            i <= skip_folders.len(),
            wanted@ == folder_name@,
            forall|k: int| 0 <= k < i ==> skip_folders.deep_view()[k] != folder_name@,
        decreases skip_folders.len() - i,
    {
        if skip_folders[i] == wanted {
            assert(skip_folders.deep_view()[i as int] == folder_name@);
            return true;
        }
        i += 1;
    }
    false
}

/// Whether a walk leaves out the directory at `path`.
pub fn is_skipped_directory(path: &str, skip_folders: &[String]) -> (skipped: bool)
    ensures
        skipped == is_skipped(path@, skip_folders.deep_view()),
{
    let name = folder_name(path);
    should_skip_folder(name.as_str(), skip_folders)
}

} // verus!
