//! Bottom-up size and file-count summaries of a directory tree.
//!
//! A walk over the file system hands over what it found as an [`entry::Entry`]; nothing in
//! this library touches the file system itself. [`analyze::analyze_directory`] turns the
//! findings into a [`summary::DirectorySummary`]: for the directory and for every directory
//! below it, the bytes and the number of the files in its subtree, the list of those files,
//! and the summaries of the directories directly inside it. Directories whose name is on a
//! skip-list ([`skip::should_skip_folder`]) count nothing.
//!
//! [`laws`] and [`order`] hold what is proved of every summary.

pub mod analyze;
pub mod console;
pub mod entry;
pub mod laws;
pub mod order;
pub mod paths;
pub mod skip;
pub mod summary;
