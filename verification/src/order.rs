//! The order in which a directory hands out its entries is not fixed. These laws say what of a
//! summary does not depend on it.

use vstd::prelude::*;
use vstd::multiset::Multiset;
use vstd::seq_lib::{
    commutative_foldl, lemma_fold_left_permutation, lemma_multiset_commutative, to_multiset_build,
    to_multiset_len, to_multiset_remove,
};
use crate::analyze::{files_below, files_of_entry, summaries_below, summary_of};
use crate::skip::is_skipped;
use crate::entry::EntryView;
use crate::paths::joined_path;
use crate::summary::{total_size_of, DirectorySummaryView, FileInfoView};

verus! {

/// The sum of the sizes of a list of files does not depend on the order of the list.
pub proof fn total_size_ignores_order(first: Seq<FileInfoView>, second: Seq<FileInfoView>)
    requires
        first.to_multiset() == second.to_multiset(),
    ensures
        total_size_of(first) == total_size_of(second),
{
    let add_size = |sum: nat, file: FileInfoView| sum + file.size;
    total_size_is_a_fold(first);
    total_size_is_a_fold(second);
    assert(commutative_foldl(add_size));
    lemma_fold_left_permutation(first, second, add_size, 0nat);
}

proof fn total_size_is_a_fold(files: Seq<FileInfoView>)
    ensures
        total_size_of(files) == files.fold_left(0nat, |sum: nat, file: FileInfoView| sum + file.size),
    decreases files.len(),
{
    if files.len() > 0 {
        total_size_is_a_fold(files.drop_last());
    }
}

proof fn files_below_are_a_fold(
    path: Seq<char>,
    entries: Seq<EntryView>,
    skip: Seq<Seq<char>>,
    base: Seq<char>,
)
    ensures
        files_below(path, entries, skip, base).to_multiset() == entries.fold_left(
            Multiset::<FileInfoView>::empty(),
            |bag: Multiset<FileInfoView>, entry: EntryView|
                bag.add(files_of_entry(path, entry, skip, base).to_multiset()),
        ),
    decreases entries.len(),
{
    broadcast use {vstd::multiset::group_multiset_axioms, vstd::seq_lib::group_to_multiset_ensures};

    if entries.len() > 0 {
        files_below_are_a_fold(path, entries.drop_last(), skip, base);
        lemma_multiset_commutative(
            files_below(path, entries.drop_last(), skip, base),
            files_of_entry(path, entries.last(), skip, base),
        );
    } else {
        assert(files_below(path, entries, skip, base).to_multiset() =~= Multiset::<
            FileInfoView,
        >::empty());
    }
}

proof fn summaries_below_are_a_fold(
    path: Seq<char>,
    entries: Seq<EntryView>,
    skip: Seq<Seq<char>>,
    base: Seq<char>,
)
    ensures
        summaries_below(path, entries, skip, base).to_multiset() == entries.fold_left(
            Multiset::<DirectorySummaryView>::empty(),
            |bag: Multiset<DirectorySummaryView>, entry: EntryView|
                match entry {
                    EntryView::Directory { name, entries: _ } => bag.insert(
                        summary_of(joined_path(path, name), entry, skip, base),
                    ),
                    _ => bag,
                },
        ),
    decreases entries.len(),
{
    broadcast use {vstd::multiset::group_multiset_axioms, vstd::seq_lib::group_to_multiset_ensures};

    if entries.len() > 0 {
        summaries_below_are_a_fold(path, entries.drop_last(), skip, base);
        match entries.last() {
            EntryView::Directory { name, entries: _ } => {
                to_multiset_build(
                    summaries_below(path, entries.drop_last(), skip, base),
                    summary_of(joined_path(path, name), entries.last(), skip, base),
                );
            },
            _ => {},
        }
    } else {
        assert(summaries_below(path, entries, skip, base).to_multiset() =~= Multiset::<
            DirectorySummaryView,
        >::empty());
    }
}

/// Two walks that found the same entries in a directory, in whatever order, give that
/// directory the same total size and file count, list the same files, each as often, and
/// nest the same summaries.
pub proof fn order_of_entries_is_immaterial(
    path: Seq<char>,
    name: Seq<char>,
    first: Seq<EntryView>,
    second: Seq<EntryView>,
    skip: Seq<Seq<char>>,
    base: Seq<char>,
)
    requires
        first.to_multiset() == second.to_multiset(),
    ensures
        ({
            let one = summary_of(path, EntryView::Directory { name, entries: first }, skip, base);
            let other = summary_of(path, EntryView::Directory { name, entries: second }, skip, base);
            &&& one.directory == other.directory
            &&& one.total_size == other.total_size
            &&& one.file_count == other.file_count
            &&& one.files.to_multiset() == other.files.to_multiset()
            &&& one.subdirectories.to_multiset() == other.subdirectories.to_multiset()
        }),
{
    let one = summary_of(path, EntryView::Directory { name, entries: first }, skip, base);
    let other = summary_of(path, EntryView::Directory { name, entries: second }, skip, base);
    let add_files = |bag: Multiset<FileInfoView>, entry: EntryView|
        bag.add(files_of_entry(path, entry, skip, base).to_multiset());
    let add_summary = |bag: Multiset<DirectorySummaryView>, entry: EntryView|
        match entry {
            EntryView::Directory { name, entries: _ } => bag.insert(
                summary_of(joined_path(path, name), entry, skip, base),
            ),
            _ => bag,
        };
    files_below_are_a_fold(path, first, skip, base);
    files_below_are_a_fold(path, second, skip, base);
    summaries_below_are_a_fold(path, first, skip, base);
    summaries_below_are_a_fold(path, second, skip, base);
    assert(commutative_foldl(add_files)) by {
        assert forall|x: EntryView, y: EntryView, bag: Multiset<FileInfoView>|
            #[trigger] add_files(add_files(bag, x), y) == add_files(add_files(bag, y), x) by {
            assert(add_files(add_files(bag, x), y) =~= add_files(add_files(bag, y), x));
        }
    }
    assert(commutative_foldl(add_summary)) by {
        assert forall|x: EntryView, y: EntryView, bag: Multiset<DirectorySummaryView>|
            #[trigger] add_summary(add_summary(bag, x), y) == add_summary(
                add_summary(bag, y),
                x,
            ) by {
            assert(add_summary(add_summary(bag, x), y) =~= add_summary(add_summary(bag, y), x));
        }
    }
    lemma_fold_left_permutation(first, second, add_files, Multiset::<FileInfoView>::empty());
    lemma_fold_left_permutation(
        first,
        second,
        add_summary,
        Multiset::<DirectorySummaryView>::empty(),
    );
    total_size_ignores_order(one.files, other.files);
    to_multiset_len(one.files);
    to_multiset_len(other.files);
}

/// Whether `places` sends the places `0 .. len` to places `0 .. len`, no two to the same.
pub open spec fn is_rearrangement(places: Seq<int>, len: nat) -> bool {
    &&& places.len() == len
    &&& forall|i: int| 0 <= i < len ==> 0 <= #[trigger] places[i] < len
    &&& forall|i: int, j: int|
        0 <= i < len && 0 <= j < len && i != j ==> #[trigger] places[i] != #[trigger] places[j]
}

/// Whether two findings differ at most in the order in which directories, at any depth, hand
/// out their entries.
pub open spec fn same_but_for_order(one: EntryView, other: EntryView) -> bool
    decreases one,
{
    match one {
        EntryView::Directory { name, entries } => {
            &&& other is Directory
            &&& other->Directory_name == name
            &&& other->entries.len() == entries.len()
            &&& exists|places: Seq<int>|
                {
                    &&& #[trigger] is_rearrangement(places, entries.len())
                    &&& forall|i: int|
                        0 <= i < entries.len() ==> same_but_for_order(
                            #[trigger] entries[i],
                            other->entries[places[i]],
                        )
                }
        },
        _ => other == one,
    }
}

/// Two lists of which one is the other rearranged hold the same items, each as often.
pub proof fn rearranged_lists_hold_the_same<A>(first: Seq<A>, second: Seq<A>, places: Seq<int>)
    requires
        first.len() == second.len(),
        is_rearrangement(places, first.len()),
        forall|i: int| 0 <= i < first.len() ==> #[trigger] first[i] == second[places[i]],
    ensures
        first.to_multiset() == second.to_multiset(),
    decreases first.len(),
{
    broadcast use {vstd::multiset::group_multiset_axioms, vstd::seq_lib::group_to_multiset_ensures};

    if first.len() == 0 {
        assert(first.to_multiset() =~= second.to_multiset());
    } else {
        let last = first.len() - 1;
        let gone = places[last];
        let front = first.drop_last();
        let rest = second.remove(gone);
        let moved = Seq::new(
            last as nat,
            |i: int|
                if places[i] < gone {
                    places[i]
                } else {
                    places[i] - 1
                },
        );
        assert forall|i: int| 0 <= i < last implies 0 <= #[trigger] moved[i] < last by {
            assert(places[i] != places[last]);
        }
        assert forall|i: int, j: int| 0 <= i < last && 0 <= j < last && i != j implies #[trigger] moved[i]
            != #[trigger] moved[j] by {
            assert(places[i] != places[j]);
            assert(places[i] != places[last]);
            assert(places[j] != places[last]);
        }
        assert forall|i: int| 0 <= i < front.len() implies #[trigger] front[i] == rest[moved[i]] by {
            assert(places[i] != places[last]);
            assert(first[i] == second[places[i]]);
        }
        rearranged_lists_hold_the_same(front, rest, moved);
        assert(first =~= front.push(first[last]));
        to_multiset_build(front, first[last]);
        to_multiset_remove(second, gone);
        assert(first[last] == second[gone]);
        assert(second.to_multiset().count(second[gone]) > 0);
        assert(first.to_multiset() =~= second.to_multiset());
    }
}

/// What each entry brings, as a bag, entry by entry.
spec fn bags_of_entries(
    path: Seq<char>,
    entries: Seq<EntryView>,
    skip: Seq<Seq<char>>,
    base: Seq<char>,
) -> Seq<Multiset<FileInfoView>> {
    Seq::new(entries.len(), |i: int| files_of_entry(path, entries[i], skip, base).to_multiset())
}

proof fn files_below_are_the_bags_joined(
    path: Seq<char>,
    entries: Seq<EntryView>,
    skip: Seq<Seq<char>>,
    base: Seq<char>,
)
    ensures
        files_below(path, entries, skip, base).to_multiset() == bags_of_entries(
            path,
            entries,
            skip,
            base,
        ).fold_left(
            Multiset::<FileInfoView>::empty(),
            |all: Multiset<FileInfoView>, bag: Multiset<FileInfoView>| all.add(bag),
        ),
    decreases entries.len(),
{
    broadcast use {vstd::multiset::group_multiset_axioms, vstd::seq_lib::group_to_multiset_ensures};

    if entries.len() > 0 {
        files_below_are_the_bags_joined(path, entries.drop_last(), skip, base);
        lemma_multiset_commutative(
            files_below(path, entries.drop_last(), skip, base),
            files_of_entry(path, entries.last(), skip, base),
        );
        assert(bags_of_entries(path, entries, skip, base).drop_last() =~= bags_of_entries(
            path,
            entries.drop_last(),
            skip,
            base,
        ));
    } else {
        assert(files_below(path, entries, skip, base).to_multiset() =~= Multiset::<
            FileInfoView,
        >::empty());
    }
}

/// Two walks over the same tree, whose directories handed out their entries in whatever
/// order, give the same total size and file count and list the same files, each as often.
pub proof fn order_at_any_depth_is_immaterial(
    path: Seq<char>,
    one: EntryView,
    other: EntryView,
    skip: Seq<Seq<char>>,
    base: Seq<char>,
)
    requires
        same_but_for_order(one, other),
    ensures
        summary_of(path, one, skip, base).directory == summary_of(path, other, skip, base).directory,
        summary_of(path, one, skip, base).total_size == summary_of(
            path,
            other,
            skip,
            base,
        ).total_size,
        summary_of(path, one, skip, base).file_count == summary_of(
            path,
            other,
            skip,
            base,
        ).file_count,
        summary_of(path, one, skip, base).files.to_multiset() == summary_of(
            path,
            other,
            skip,
            base,
        ).files.to_multiset(),
    decreases one,
{
    match one {
        EntryView::Directory { name, entries } => {
            if !is_skipped(path, skip) {
                let others = other->entries;
                let places = choose|places: Seq<int>|
                    {
                        &&& #[trigger] is_rearrangement(places, entries.len())
                        &&& forall|i: int|
                            0 <= i < entries.len() ==> same_but_for_order(
                                #[trigger] entries[i],
                                others[places[i]],
                            )
                    };
                let bags = bags_of_entries(path, entries, skip, base);
                let other_bags = bags_of_entries(path, others, skip, base);
                assert forall|i: int| 0 <= i < bags.len() implies #[trigger] bags[i]
                    == other_bags[places[i]] by {
                    assert(same_but_for_order(entries[i], others[places[i]]));
                    match entries[i] {
                        EntryView::Directory { name: inner, entries: _ } => {
                            order_at_any_depth_is_immaterial(
                                joined_path(path, inner),
                                entries[i],
                                others[places[i]],
                                skip,
                                base,
                            );
                        },
                        _ => {},
                    }
                }
                rearranged_lists_hold_the_same(bags, other_bags, places);
                let join = |all: Multiset<FileInfoView>, bag: Multiset<FileInfoView>| all.add(bag);
                assert(commutative_foldl(join)) by {
                    assert forall|x: Multiset<FileInfoView>, y: Multiset<FileInfoView>, all: Multiset<FileInfoView>|
                        #[trigger] join(join(all, x), y) == join(join(all, y), x) by {
                        assert(join(join(all, x), y) =~= join(join(all, y), x));
                    }
                }
                lemma_fold_left_permutation(bags, other_bags, join, Multiset::<FileInfoView>::empty());
                files_below_are_the_bags_joined(path, entries, skip, base);
                files_below_are_the_bags_joined(path, others, skip, base);
                let files = summary_of(path, one, skip, base).files;
                let other_files = summary_of(path, other, skip, base).files;
                total_size_ignores_order(files, other_files);
                to_multiset_len(files);
                to_multiset_len(other_files);
            }
        },
        _ => {},
    }
}

} // verus!
