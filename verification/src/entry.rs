//! What a walk over the file system found: a tree of plain values.
//!
//! Whoever reads the file system builds an [`Entry`] for the place where the walk starts and
//! hands it to the library. The paths of nested entries are not stored: they follow from the
//! path of the start and the names on the way down.

use vstd::prelude::*;

verus! {

/// One thing found at a path.
#[derive(Debug, PartialEq, Eq)]
pub enum Entry {
    /// A regular file.
    File {
        /// Base name of the file.
        name: String,
        /// Length of the file in bytes.
        size: u64,
    },
    /// A directory, with what was found directly inside it, in the order found.
    Directory {
        /// Base name of the directory, from which the paths of its entries are built. The
        /// directory at which a walk starts is known by the path given with it instead.
        name: String,
        /// The entries of the directory.
        entries: Vec<Entry>,
    },
    /// Anything that is neither a regular file nor a directory.
    Other,
}

/// Mathematical value of an [`Entry`].
pub enum EntryView {
    File { name: Seq<char>, size: nat },
    Directory { name: Seq<char>, entries: Seq<EntryView> },
    Other,
}

/// Values of the first `count` entries of `list`, in order.
pub open spec fn entry_views(list: Vec<Entry>, count: nat) -> Seq<EntryView>
    decreases list, count,
{
    if count == 0 || count > list@.len() {
        Seq::empty()
    } else {
        entry_views(list, (count - 1) as nat).push(list@[count - 1].view())
    }
}

impl View for Entry {
    type V = EntryView;

    open spec fn view(&self) -> EntryView
        decreases self,
    {
        match self {
            Entry::File { name, size } => EntryView::File { name: name@, size: *size as nat },
            Entry::Directory { name, entries } => EntryView::Directory {
                name: name@,
                entries: entry_views(*entries, entries@.len()),
            },
            Entry::Other => EntryView::Other,
        }
    }
}

/// `entry_views` lists one value per entry, at the entry's own index.
pub proof fn lemma_entry_views(list: Vec<Entry>, count: nat)
    requires
        count <= list@.len(),
    ensures
        entry_views(list, count).len() == count,
        forall|k: int| 0 <= k < count ==> #[trigger] entry_views(list, count)[k] == list@[k]@,
    decreases count,
{
    if count > 0 {
        lemma_entry_views(list, (count - 1) as nat);
        assert(entry_views(list, count) == entry_views(list, (count - 1) as nat).push(
            list@[count - 1]@,
        ));
    }
}

} // verus!
