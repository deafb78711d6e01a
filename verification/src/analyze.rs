//! The aggregation itself: from what a walk found to the summary of its root.

use vstd::prelude::*;
use crate::entry::{lemma_entry_views, Entry, EntryView};
use crate::paths::{join_path, joined_path, relative_folder, relative_folder_of};
use crate::skip::{is_skipped, is_skipped_directory};
use crate::summary::{
    lemma_total_size_of_concat, total_size_of, AnalysisError, DirectorySummary,
    DirectorySummaryView, FileInfo, FileInfoView,
};

verus! {

/// The summary of what was found at `path`.
///
/// Anything but a directory, and a directory that is left out, counts nothing. A directory
/// that is walked lists every file below it and totals them.
pub open spec fn summary_of(
    path: Seq<char>,
    found: EntryView,
    skip: Seq<Seq<char>>,
    base: Seq<char>,
) -> DirectorySummaryView
    decreases found, 0nat,
{
    match found {
        EntryView::Directory { name, entries } => {
            if is_skipped(path, skip) {
                DirectorySummaryView::empty(path)
            } else {
                let files = files_below(path, entries, skip, base);
                DirectorySummaryView {
                    directory: path,
                    total_size: total_size_of(files),
                    file_count: files.len(),
                    files,
                    subdirectories: summaries_below(path, entries, skip, base),
                }
            }
        },
        _ => DirectorySummaryView::empty(path),
    }
}

/// The files that one entry of the directory at `path` brings into that directory's list: a
/// file brings itself, a directory brings every file of its own summary.
pub open spec fn files_of_entry(
    path: Seq<char>,
    entry: EntryView,
    skip: Seq<Seq<char>>,
    base: Seq<char>,
) -> Seq<FileInfoView>
    decreases entry, 1nat,
{
    match entry {
        EntryView::File { name, size } => seq![
            FileInfoView { name, size, folder: relative_folder_of(path, base) },
        ],
        EntryView::Directory { name, entries } => summary_of(
            joined_path(path, name),
            entry,
            skip,
            base,
        ).files,
        EntryView::Other => Seq::empty(),
    }
}

/// Every file in or below the directory at `path`, whose entries are `entries`: what each
/// entry brings, in the order of the entries.
pub open spec fn files_below(
    path: Seq<char>,
    entries: Seq<EntryView>,
    skip: Seq<Seq<char>>,
    base: Seq<char>,
) -> Seq<FileInfoView>
    decreases entries, 2nat,
{
    if entries.len() == 0 {
        Seq::empty()
    } else {
        files_below(path, entries.drop_last(), skip, base) + files_of_entry(
            path,
            entries.last(),
            skip,
            base,
        )
    }
}

/// The summaries of the directories among `entries`, in the order of the entries.
pub open spec fn summaries_below(
    path: Seq<char>,
    entries: Seq<EntryView>,
    skip: Seq<Seq<char>>,
    base: Seq<char>,
) -> Seq<DirectorySummaryView>
    decreases entries, 2nat,
{
    if entries.len() == 0 {
        Seq::empty()
    } else {
        let before = summaries_below(path, entries.drop_last(), skip, base);
        match entries.last() {
            EntryView::Directory { name, entries: _ } => before.push(
                summary_of(joined_path(path, name), entries.last(), skip, base),
            ),
            _ => before,
        }
    }
}

/// One more entry adds what it brings behind what the entries before it brought.
pub proof fn lemma_one_more_entry(
    path: Seq<char>,
    entries: Seq<EntryView>,
    count: int,
    skip: Seq<Seq<char>>,
    base: Seq<char>,
)
    requires
        0 <= count < entries.len(),
    ensures
        files_below(path, entries.take(count + 1), skip, base) == files_below(
            path,
            entries.take(count),
            skip,
            base,
        ) + files_of_entry(path, entries[count], skip, base),
        summaries_below(path, entries.take(count + 1), skip, base) == match entries[count] {
            EntryView::Directory { name, entries: _ } => summaries_below(
                path,
                entries.take(count),
                skip,
                base,
            ).push(summary_of(joined_path(path, name), entries[count], skip, base)),
            _ => summaries_below(path, entries.take(count), skip, base),
        },
{
    assert(entries.take(count + 1).drop_last() =~= entries.take(count));
}

/// The files of the first entries never weigh more than the files of all entries.
pub proof fn lemma_leading_entries_weigh_less(
    path: Seq<char>,
    entries: Seq<EntryView>,
    count: int,
    skip: Seq<Seq<char>>,
    base: Seq<char>,
)
    requires
        0 <= count <= entries.len(),
    ensures
        total_size_of(files_below(path, entries.take(count), skip, base)) <= total_size_of(
            files_below(path, entries, skip, base),
        ),
    decreases entries.len() - count,
{
    if count == entries.len() {
        assert(entries.take(count) =~= entries);
    } else {
        lemma_one_more_entry(path, entries, count, skip, base);
        lemma_total_size_of_concat(
            files_below(path, entries.take(count), skip, base),
            files_of_entry(path, entries[count], skip, base),
        );
        lemma_leading_entries_weigh_less(path, entries, count + 1, skip, base);
    }
}

/// Summarises what a walk found at `path`.
///
/// `found` is what lies at `path`, `skip_folders` the names of the directories to leave out,
/// and `base_path` the root of the walk, against which the folder of each file is written.
/// The result is `summary_of` the arguments: totals are built from the bottom up, a nested
/// directory hands all its files on to the directory above it, and entries keep the order in
/// which they were found. The call fails exactly when the bytes below `path` add up to more
/// than a `u64` holds.
pub fn analyze_directory(
    path: &str,
    found: &Entry,
    skip_folders: &[String],
    base_path: &str,
) -> (result: Result<DirectorySummary, AnalysisError>)
    ensures
        result is Ok <==> summary_of(
            path@,
            found@,
            skip_folders.deep_view(),
            base_path@,
        ).total_size <= u64::MAX,
        match result {
            Ok(summary) => summary@ == summary_of(
                path@,
                found@,
                skip_folders.deep_view(),
                base_path@,
            ) && summary@.consistent(),
            Err(error) => error == AnalysisError::TotalSizeOverflow,
        },
    decreases found,
{
    let mut summary = DirectorySummary::empty(path.to_owned());
    match found {
        Entry::Directory { name: _, entries } => {
            if is_skipped_directory(path, skip_folders) {
                return Ok(summary);
            }
            let folder = relative_folder(path, base_path);
            let ghost skip = skip_folders.deep_view();
            let ghost listed = found@->entries;
            proof {
                lemma_entry_views(*entries, entries@.len());
            }
            let mut i: usize = 0;
            while i < entries.len()
                invariant
                    i <= entries.len(),
                    skip == skip_folders.deep_view(),
                    found@ is Directory,
                    listed == found@->entries,
                    listed.len() == entries@.len(),
                    forall|k: int| 0 <= k < listed.len() ==> listed[k] == #[trigger] entries@[k]@,
                    forall|k: int|
                        0 <= k < entries@.len() ==> decreases_to!(found => #[trigger] entries@[k]),
                    !is_skipped(path@, skip),
                    folder@ == relative_folder_of(path@, base_path@),
                    summary@.consistent(),
                    summary@.directory == path@,
                    summary@.files == files_below(path@, listed.take(i as int), skip, base_path@),
                    summary@.subdirectories == summaries_below(
                        path@,
                        listed.take(i as int),
                        skip,
                        base_path@,
                    ),
                decreases entries.len() - i,
            {
                let ghost before = summary@;
                proof {
                    assert(listed[i as int] == entries@[i as int]@);
                    lemma_one_more_entry(path@, listed, i as int, skip, base_path@);
                    lemma_leading_entries_weigh_less(path@, listed, i + 1, skip, base_path@);
                    lemma_total_size_of_concat(
                        before.files,
                        files_of_entry(path@, listed[i as int], skip, base_path@),
                    );
                }
                match &entries[i] {
                    Entry::File { name, size } => {
                        let file = FileInfo {
                            name: name.clone(),
                            size: *size,
                            folder: folder.clone(),
                        };
                        proof {
                            let brought = files_of_entry(path@, listed[i as int], skip, base_path@);
                            assert(brought =~= seq![file@]);
                            assert(brought.drop_last() =~= Seq::<FileInfoView>::empty());
                            assert(total_size_of(brought.drop_last()) == 0);
                            assert(total_size_of(brought) == file@.size);
                            assert(before.files + brought =~= before.files.push(file@));
                        }
                        match summary.add_file(file) {
                            Ok(()) => {},
                            Err(error) => {
                                return Err(error);
                            },
                        }
                    },
                    Entry::Directory { name, entries: _ } => {
                        let child_path = join_path(path, name.as_str());
                        match analyze_directory(
                            child_path.as_str(),
                            &entries[i],
                            skip_folders,
                            base_path,
                        ) {
                            Ok(child) => {
                                match summary.add_subdirectory(child) {
                                    Ok(()) => {},
                                    Err(error) => {
                                        return Err(error);
                                    },
                                }
                            },
                            Err(error) => {
                                return Err(error);
                            },
                        }
                    },
                    Entry::Other => {
                        assert(before.files + Seq::<FileInfoView>::empty() =~= before.files);
                    },
                }
                i += 1;
            }
            proof {
                assert(listed.take(i as int) =~= listed);
            }
            Ok(summary)
        },
        _ => Ok(summary),
    }
}

} // verus!
