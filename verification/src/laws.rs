//! What holds of every summary, whatever the walk found.

use vstd::prelude::*;
use crate::analyze::{files_below, files_of_entry, summaries_below, summary_of};
use crate::skip::is_skipped;
use crate::entry::EntryView;
use crate::paths::{joined_path, relative_folder_of};
use crate::summary::{
    lemma_summary_views, lemma_total_size_of_concat, total_size_of, DirectorySummary, DirectorySummaryView,
    FileInfoView,
};

verus! {

/// Sum of the sizes of the regular files directly among `entries`.
pub open spec fn direct_size(entries: Seq<EntryView>) -> nat
    decreases entries.len(),
{
    if entries.len() == 0 {
        0
    } else {
        direct_size(entries.drop_last()) + match entries.last() {
            EntryView::File { name: _, size } => size,
            _ => 0,
        }
    }
}

/// Sum of the totals of `summaries`.
pub open spec fn nested_size(summaries: Seq<DirectorySummaryView>) -> nat
    decreases summaries.len(),
{
    if summaries.len() == 0 {
        0
    } else {
        nested_size(summaries.drop_last()) + summaries.last().total_size
    }
}

/// In every summary, and in every summary nested in it at any depth, the total size is the sum
/// of the sizes of the listed files and the file count is the length of that list.
pub proof fn summary_is_consistent(
    path: Seq<char>,
    found: EntryView,
    skip: Seq<Seq<char>>,
    base: Seq<char>,
)
    ensures
        summary_of(path, found, skip, base).consistent(),
    decreases found,
{
    match found {
        EntryView::Directory { name, entries } => {
            if !is_skipped(path, skip) {
                nested_summaries_are_consistent(path, entries, skip, base);
                let summary = summary_of(path, found, skip, base);
                assert(summary.subdirectories == summaries_below(path, entries, skip, base));
                assert(summary.consistent());
            } else {
                assert(DirectorySummaryView::empty(path).consistent());
            }
        },
        _ => {
            assert(DirectorySummaryView::empty(path).consistent());
        },
    }
}

/// Every summary of a directory among `entries` is consistent.
pub proof fn nested_summaries_are_consistent(
    path: Seq<char>,
    entries: Seq<EntryView>,
    skip: Seq<Seq<char>>,
    base: Seq<char>,
)
    ensures
        forall|k: int|
            0 <= k < summaries_below(path, entries, skip, base).len() ==> (#[trigger] summaries_below(
                path,
                entries,
                skip,
                base,
            )[k]).consistent(),
    decreases entries,
{
    if entries.len() > 0 {
        let before = summaries_below(path, entries.drop_last(), skip, base);
        let all = summaries_below(path, entries, skip, base);
        nested_summaries_are_consistent(path, entries.drop_last(), skip, base);
        match entries.last() {
            EntryView::Directory { name, entries: _ } => {
                summary_is_consistent(joined_path(path, name), entries.last(), skip, base);
            },
            _ => {},
        }
        assert forall|k: int| 0 <= k < all.len() implies (#[trigger] all[k]).consistent() by {
            if k < before.len() {
                assert(all[k] == before[k]);
            }
        }
    }
}

/// The files in and below a directory weigh what the files directly in it weigh, plus the
/// totals of the directories directly in it.
pub proof fn files_below_weigh_direct_and_nested(
    path: Seq<char>,
    entries: Seq<EntryView>,
    skip: Seq<Seq<char>>,
    base: Seq<char>,
)
    ensures
        total_size_of(files_below(path, entries, skip, base)) == direct_size(entries) + nested_size(
            summaries_below(path, entries, skip, base),
        ),
    decreases entries.len(),
{
    if entries.len() > 0 {
        let before = entries.drop_last();
        let brought = files_of_entry(path, entries.last(), skip, base);
        files_below_weigh_direct_and_nested(path, before, skip, base);
        lemma_total_size_of_concat(files_below(path, before, skip, base), brought);
        match entries.last() {
            EntryView::File { name, size } => {
                assert(brought.drop_last() =~= Seq::<FileInfoView>::empty());
                assert(total_size_of(brought.drop_last()) == 0);
            },
            EntryView::Directory { name, entries: _ } => {
                summary_is_consistent(joined_path(path, name), entries.last(), skip, base);
                assert(summaries_below(path, entries, skip, base).drop_last() =~= summaries_below(
                    path,
                    before,
                    skip,
                    base,
                ));
            },
            EntryView::Other => {},
        }
    }
}

/// The total size of a directory that is walked is the sum of the sizes of the files directly
/// in it, plus the sum of the totals of its nested summaries.
pub proof fn total_size_is_direct_plus_nested(
    path: Seq<char>,
    found: EntryView,
    skip: Seq<Seq<char>>,
    base: Seq<char>,
)
    requires
        found is Directory,
        !is_skipped(path, skip),
    ensures
        summary_of(path, found, skip, base).total_size == direct_size(found->entries) + nested_size(
            summary_of(path, found, skip, base).subdirectories,
        ),
{
    files_below_weigh_direct_and_nested(path, found->entries, skip, base);
}

/// A directory whose own name is on the skip-list counts nothing, whatever lies in it.
pub proof fn skipped_directory_counts_nothing(
    path: Seq<char>,
    found: EntryView,
    skip: Seq<Seq<char>>,
    base: Seq<char>,
)
    requires
        is_skipped(path, skip),
    ensures
        summary_of(path, found, skip, base) == DirectorySummaryView::empty(path),
        summary_of(path, found, skip, base).total_size == 0,
        summary_of(path, found, skip, base).file_count == 0,
        summary_of(path, found, skip, base).files.len() == 0,
        summary_of(path, found, skip, base).subdirectories.len() == 0,
{
}

/// Whether the walk that starts at `path` comes through a directory at `directory` that
/// directly holds a regular file called `name`, of `size` bytes. Directories that are left
/// out are not entered.
pub open spec fn walk_finds(
    path: Seq<char>,
    found: EntryView,
    skip: Seq<Seq<char>>,
    directory: Seq<char>,
    name: Seq<char>,
    size: nat,
) -> bool
    decreases found,
{
    match found {
        EntryView::Directory { name: _, entries } => {
            &&& !is_skipped(path, skip)
            &&& {
                ||| directory == path && entries.contains(EntryView::File { name, size })
                ||| exists|k: int|
                    0 <= k < entries.len() && (#[trigger] entries[k]) is Directory && walk_finds(
                        joined_path(path, entries[k]->Directory_name),
                        entries[k],
                        skip,
                        directory,
                        name,
                        size,
                    )
            }
        },
        _ => false,
    }
}

/// Where a listed file comes from: the entry that brought it, and its place in what that
/// entry brought.
proof fn origin_of_listed_file(
    path: Seq<char>,
    entries: Seq<EntryView>,
    skip: Seq<Seq<char>>,
    base: Seq<char>,
    index: int,
) -> (origin: (int, int))
    requires
        0 <= index < files_below(path, entries, skip, base).len(),
    ensures
        0 <= origin.0 < entries.len(),
        0 <= origin.1 < files_of_entry(path, entries[origin.0], skip, base).len(),
        files_below(path, entries, skip, base)[index] == files_of_entry(
            path,
            entries[origin.0],
            skip,
            base,
        )[origin.1],
    decreases entries.len(),
{
    let before = files_below(path, entries.drop_last(), skip, base);
    if index < before.len() {
        origin_of_listed_file(path, entries.drop_last(), skip, base, index)
    } else {
        (entries.len() - 1, index - before.len())
    }
}

/// The directory that holds a listed file.
proof fn directory_of_listed_file(
    path: Seq<char>,
    found: EntryView,
    skip: Seq<Seq<char>>,
    base: Seq<char>,
    index: int,
) -> (directory: Seq<char>)
    requires
        0 <= index < summary_of(path, found, skip, base).files.len(),
    ensures
        walk_finds(
            path,
            found,
            skip,
            directory,
            summary_of(path, found, skip, base).files[index].name,
            summary_of(path, found, skip, base).files[index].size,
        ),
        summary_of(path, found, skip, base).files[index].folder == relative_folder_of(
            directory,
            base,
        ),
    decreases found,
{
    let entries = found->entries;
    let (j, m) = origin_of_listed_file(path, entries, skip, base, index);
    match entries[j] {
        EntryView::File { name, size } => {
            assert(entries.contains(EntryView::File { name, size }));
            path
        },
        EntryView::Directory { name, entries: _ } => {
            let file = summary_of(path, found, skip, base).files[index];
            let directory = directory_of_listed_file(
                joined_path(path, name),
                entries[j],
                skip,
                base,
                m,
            );
            assert(walk_finds(
                joined_path(path, entries[j]->Directory_name),
                entries[j],
                skip,
                directory,
                file.name,
                file.size,
            ));
            directory
        },
        EntryView::Other => path,
    }
}

/// Every listed file lies in a directory that the walk came through, and its folder is the
/// path of that directory written relative to the base path.
pub proof fn listed_file_has_relative_folder(
    path: Seq<char>,
    found: EntryView,
    skip: Seq<Seq<char>>,
    base: Seq<char>,
    index: int,
)
    requires
        0 <= index < summary_of(path, found, skip, base).files.len(),
    ensures
        exists|directory: Seq<char>|
            #[trigger] walk_finds(
                path,
                found,
                skip,
                directory,
                summary_of(path, found, skip, base).files[index].name,
                summary_of(path, found, skip, base).files[index].size,
            ) && summary_of(path, found, skip, base).files[index].folder == relative_folder_of(
                directory,
                base,
            ),
{
    let directory = directory_of_listed_file(path, found, skip, base, index);
}

/// What an entry brings is part of the list of the directory it lies in.
proof fn brought_file_is_listed(
    path: Seq<char>,
    entries: Seq<EntryView>,
    skip: Seq<Seq<char>>,
    base: Seq<char>,
    k: int,
    m: int,
)
    requires
        0 <= k < entries.len(),
        0 <= m < files_of_entry(path, entries[k], skip, base).len(),
    ensures
        files_below(path, entries, skip, base).contains(
            files_of_entry(path, entries[k], skip, base)[m],
        ),
    decreases entries.len(),
{
    let before = files_below(path, entries.drop_last(), skip, base);
    let all = files_below(path, entries, skip, base);
    if k < entries.len() - 1 {
        brought_file_is_listed(path, entries.drop_last(), skip, base, k, m);
        let at = choose|at: int|
            0 <= at < before.len() && before[at] == files_of_entry(path, entries[k], skip, base)[m];
        assert(all[at] == before[at]);
    } else {
        assert(all[before.len() + m] == files_of_entry(path, entries[k], skip, base)[m]);
    }
}

/// No file is lost: a regular file directly in a directory that the walk came through is
/// listed, with the path of that directory, written relative to the base path, as its folder.
pub proof fn found_file_is_listed(
    path: Seq<char>,
    found: EntryView,
    skip: Seq<Seq<char>>,
    base: Seq<char>,
    directory: Seq<char>,
    name: Seq<char>,
    size: nat,
)
    requires
        walk_finds(path, found, skip, directory, name, size),
    ensures
        summary_of(path, found, skip, base).files.contains(
            FileInfoView { name, size, folder: relative_folder_of(directory, base) },
        ),
    decreases found,
{
    let entries = found->entries;
    let listed = FileInfoView { name, size, folder: relative_folder_of(directory, base) };
    if directory == path && entries.contains(EntryView::File { name, size }) {
        let k = choose|k: int| 0 <= k < entries.len() && entries[k] == EntryView::File { name, size };
        assert(files_of_entry(path, entries[k], skip, base)[0] == listed);
        brought_file_is_listed(path, entries, skip, base, k, 0);
    } else {
        let k = choose|k: int|
            0 <= k < entries.len() && (#[trigger] entries[k]) is Directory && walk_finds(
                joined_path(path, entries[k]->Directory_name),
                entries[k],
                skip,
                directory,
                name,
                size,
            );
        let child_path = joined_path(path, entries[k]->Directory_name);
        found_file_is_listed(child_path, entries[k], skip, base, directory, name, size);
        let nested = summary_of(child_path, entries[k], skip, base).files;
        let m = choose|m: int| 0 <= m < nested.len() && nested[m] == listed;
        brought_file_is_listed(path, entries, skip, base, k, m);
    }
}

/// The entry that a nested summary was made of.
proof fn origin_of_nested_summary(
    path: Seq<char>,
    entries: Seq<EntryView>,
    skip: Seq<Seq<char>>,
    base: Seq<char>,
    index: int,
) -> (origin: int)
    requires
        0 <= index < summaries_below(path, entries, skip, base).len(),
    ensures
        0 <= origin < entries.len(),
        entries[origin] is Directory,
        summaries_below(path, entries, skip, base)[index] == summary_of(
            joined_path(path, entries[origin]->Directory_name),
            entries[origin],
            skip,
            base,
        ),
    decreases entries.len(),
{
    let before = summaries_below(path, entries.drop_last(), skip, base);
    if index < before.len() {
        origin_of_nested_summary(path, entries.drop_last(), skip, base, index)
    } else {
        entries.len() - 1
    }
}

/// The list of files is cumulative: every file listed in a nested summary is listed in the
/// summary above it as well.
pub proof fn nested_files_are_listed_above(
    path: Seq<char>,
    found: EntryView,
    skip: Seq<Seq<char>>,
    base: Seq<char>,
    nested: int,
    index: int,
)
    requires
        0 <= nested < summary_of(path, found, skip, base).subdirectories.len(),
        0 <= index < summary_of(path, found, skip, base).subdirectories[nested].files.len(),
    ensures
        summary_of(path, found, skip, base).files.contains(
            summary_of(path, found, skip, base).subdirectories[nested].files[index],
        ),
{
    let entries = found->entries;
    let origin = origin_of_nested_summary(path, entries, skip, base, nested);
    brought_file_is_listed(path, entries, skip, base, origin, index);
}

/// Two analyses of the same findings, with the same skip-list and base path, give summaries
/// that are equal in every field, at every depth.
pub proof fn analysis_is_repeatable(
    first: DirectorySummary,
    second: DirectorySummary,
    path: Seq<char>,
    found: EntryView,
    skip: Seq<Seq<char>>,
    base: Seq<char>,
)
    requires
        first@ == summary_of(path, found, skip, base),
        second@ == summary_of(path, found, skip, base),
    ensures
        first@ == second@,
        first.directory@ == second.directory@,
        first.total_size == second.total_size,
        first.file_count == second.file_count,
        first.files@.len() == second.files@.len(),
        first.subdirectories@.len() == second.subdirectories@.len(),
{
    lemma_summary_views(first.subdirectories, first.subdirectories@.len());
    lemma_summary_views(second.subdirectories, second.subdirectories@.len());
    assert(first@.files.len() == first.files@.len());
    assert(second@.files.len() == second.files@.len());
}

} // verus!
