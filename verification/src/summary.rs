//! The report types: one regular file, and one directory with everything below it.

use vstd::prelude::*;

verus! {

/// Why a summary could not be built or extended.
#[derive(Debug, Clone, Copy, PartialEq, Eq, Structural)]
pub enum AnalysisError {
    /// The bytes of the files add up to more than a `u64` holds.
    TotalSizeOverflow,
}

/// One regular file found during a walk.
#[derive(Debug, PartialEq, Eq)]
pub struct FileInfo {
    /// Base name of the file.
    pub name: String,
    /// Length of the file in bytes.
    pub size: u64,
    /// Directory that holds the file, relative to the root of the walk.
    pub folder: String,
}

/// Mathematical value of a [`FileInfo`].
pub struct FileInfoView {
    pub name: Seq<char>,
    pub size: nat,
    pub folder: Seq<char>,
}

impl View for FileInfo {
    type V = FileInfoView;

    open spec fn view(&self) -> FileInfoView {
        FileInfoView { name: self.name@, size: self.size as nat, folder: self.folder@ }
    }
}

impl Clone for FileInfo {
    fn clone(&self) -> (copy: Self)
        ensures
            copy@ == self@,
    {
        FileInfo { name: self.name.clone(), size: self.size, folder: self.folder.clone() }
    }
}

/// Values of a list of files, in order.
pub open spec fn file_views(files: Seq<FileInfo>) -> Seq<FileInfoView> {
    files.map_values(|f: FileInfo| f@)
}

/// Sum of the sizes of `files`.
pub open spec fn total_size_of(files: Seq<FileInfoView>) -> nat
    decreases files.len(),
{
    if files.len() == 0 {
        0
    } else {
        total_size_of(files.drop_last()) + files.last().size
    }
}

/// Totals and contents of one directory, everything below it included.
#[derive(Debug, PartialEq, Eq)]
pub struct DirectorySummary {
    /// Path of the directory, as the platform writes it.
    pub directory: String,
    /// Bytes in all files of the subtree.
    pub total_size: u64,
    /// Number of files in the subtree.
    pub file_count: usize,
    /// Every file of the subtree, those of nested directories included.
    pub files: Vec<FileInfo>,
    /// Summaries of the directories directly inside this one, in the order found.
    pub subdirectories: Vec<DirectorySummary>,
}

/// Mathematical value of a [`DirectorySummary`].
pub struct DirectorySummaryView {
    pub directory: Seq<char>,
    pub total_size: nat,
    pub file_count: nat,
    pub files: Seq<FileInfoView>,
    pub subdirectories: Seq<DirectorySummaryView>,
}

/// Values of the first `count` summaries of `list`, in order.
pub open spec fn summary_views(list: Vec<DirectorySummary>, count: nat) -> Seq<DirectorySummaryView>
    decreases list, count,
{
    if count == 0 || count > list@.len() {
        Seq::empty()
    } else {
        summary_views(list, (count - 1) as nat).push(list@[count - 1].view())
    }
}

impl View for DirectorySummary {
    type V = DirectorySummaryView;

    open spec fn view(&self) -> DirectorySummaryView
        decreases self,
    {
        DirectorySummaryView {
            directory: self.directory@,
            total_size: self.total_size as nat,
            file_count: self.file_count as nat,
            files: file_views(self.files@),
            subdirectories: summary_views(self.subdirectories, self.subdirectories@.len()),
        }
    }
}

/// `summary_views` lists one value per summary, at the summary's own index.
pub proof fn lemma_summary_views(list: Vec<DirectorySummary>, count: nat)
    requires
        count <= list@.len(),
    ensures
        summary_views(list, count).len() == count,
        forall|k: int| 0 <= k < count ==> #[trigger] summary_views(list, count)[k] == list@[k]@,
    decreases count,
{
    if count > 0 {
        lemma_summary_views(list, (count - 1) as nat);
        assert(summary_views(list, count) == summary_views(list, (count - 1) as nat).push(
            list@[count - 1]@,
        ));
    }
}

impl DirectorySummaryView {
    /// The summary of a directory in which nothing was counted.
    pub open spec fn empty(directory: Seq<char>) -> DirectorySummaryView {
        DirectorySummaryView {
            directory,
            total_size: 0,
            file_count: 0,
            files: Seq::empty(),
            subdirectories: Seq::empty(),
        }
    }

    /// This summary after one more file directly inside the directory.
    pub open spec fn with_file(self, file: FileInfoView) -> DirectorySummaryView {
        DirectorySummaryView {
            directory: self.directory,
            total_size: self.total_size + file.size,
            file_count: self.file_count + 1,
            files: self.files.push(file),
            subdirectories: self.subdirectories,
        }
    }

    /// This summary after one more nested directory: the child's totals and files are taken
    /// over, and the child itself becomes the last nested summary.
    pub open spec fn with_subdirectory(self, child: DirectorySummaryView) -> DirectorySummaryView {
        DirectorySummaryView {
            directory: self.directory,
            total_size: self.total_size + child.total_size,
            file_count: self.file_count + child.file_count,
            files: self.files + child.files,
            subdirectories: self.subdirectories.push(child),
        }
    }

    /// The totals of this node agree with its list of files.
    pub open spec fn totals_match_files(self) -> bool {
        &&& self.total_size == total_size_of(self.files)
        &&& self.file_count == self.files.len()
    }

    /// The totals agree with the list of files, here and in every nested summary.
    pub open spec fn consistent(self) -> bool
        decreases self,
    {
        &&& self.totals_match_files()
        &&& forall|k: int|
            0 <= k < self.subdirectories.len() ==> (#[trigger] self.subdirectories[k]).consistent()
    }
}

/// The sizes of two lists of files add up when the lists are joined.
pub proof fn lemma_total_size_of_concat(first: Seq<FileInfoView>, second: Seq<FileInfoView>)
    ensures
        total_size_of(first + second) == total_size_of(first) + total_size_of(second),
    decreases second.len(),
{
    if second.len() == 0 {
        assert(first + second =~= first);
    } else {
        lemma_total_size_of_concat(first, second.drop_last());
        assert((first + second).drop_last() =~= first + second.drop_last());
        assert((first + second).last() == second.last());
    }
}

/// The first files of a list never weigh more than the whole list.
pub proof fn lemma_total_size_of_prefix(files: Seq<FileInfoView>, count: int)
    requires
        0 <= count <= files.len(),
    ensures
        total_size_of(files.take(count)) <= total_size_of(files),
{
    lemma_total_size_of_concat(files.take(count), files.skip(count));
    assert(files.take(count) + files.skip(count) =~= files);
}

impl DirectorySummary {
    /// Whether the totals agree with the list of files, here and in every nested summary.
    pub fn is_consistent(&self) -> (ok: bool)
        ensures
            ok == self@.consistent(),
        decreases self,
    {
        let ghost files = self@.files;
        if self.file_count != self.files.len() {
            return false;
        }
        let mut sum: u64 = 0;
        let mut i: usize = 0;
        while i < self.files.len()
            invariant
                i <= self.files.len(),
                files == file_views(self.files@),
                sum == total_size_of(files.take(i as int)),
            decreases self.files.len() - i,
        {
            proof {
                assert(files.take(i + 1).drop_last() =~= files.take(i as int));
                lemma_total_size_of_prefix(files, i + 1);
            }
            match sum.checked_add(self.files[i].size) {
                None => {
                    return false;
                },
                Some(more) => {
                    sum = more;
                },
            }
            i += 1;
        }
        proof {
            assert(files.take(i as int) =~= files);
        }
        if sum != self.total_size {
            return false;
        }
        proof {
            lemma_summary_views(self.subdirectories, self.subdirectories@.len());
        }
        let mut j: usize = 0;
        while j < self.subdirectories.len()
            invariant
                j <= self.subdirectories.len(),
                self@.subdirectories.len() == self.subdirectories@.len(),
                forall|k: int|
                    0 <= k < self.subdirectories@.len() ==> #[trigger] self@.subdirectories[k]
                        == self.subdirectories@[k]@,
                forall|k: int| 0 <= k < j ==> (#[trigger] self@.subdirectories[k]).consistent(),
            decreases self.subdirectories.len() - j,
        {
            if !self.subdirectories[j].is_consistent() {
                assert(!self@.subdirectories[j as int].consistent());
                return false;
            }
            j += 1;
        }
        true
    }

    /// The summary of `directory` with nothing counted in it.
    pub fn empty(directory: String) -> (summary: DirectorySummary)
        ensures
            summary@ == DirectorySummaryView::empty(directory@),
            summary@.consistent(),
    {
        let summary = DirectorySummary {
            directory,
            total_size: 0,
            file_count: 0,
            files: Vec::new(),
            subdirectories: Vec::new(),
        };
        assert(summary@.files =~= Seq::empty());
        summary
    }

    /// Counts one more file that lies directly in the directory.
    ///
    /// Fails, and leaves the summary as it was, exactly when the new total would not fit.
    pub fn add_file(&mut self, file: FileInfo) -> (added: Result<(), AnalysisError>)
        requires
            old(self)@.consistent(),
        ensures
            old(self)@.total_size + file@.size <= u64::MAX ==> added == Ok::<(), AnalysisError>(())
                && final(self)@ == old(self)@.with_file(file@),
            old(self)@.total_size + file@.size > u64::MAX ==> added == Err::<(), AnalysisError>(
                AnalysisError::TotalSizeOverflow,
            ) && *final(self) == *old(self),
            final(self)@.consistent(),
    {
        match self.total_size.checked_add(file.size) {
            None => Err(AnalysisError::TotalSizeOverflow),
            Some(total) => {
                let ghost before = self@;
                self.total_size = total;
                self.files.push(file);
                self.file_count = self.files.len();
                proof {
                    assert(self@.files =~= before.files.push(file@));
                    assert(self@.files.drop_last() =~= before.files);
                    assert(self@ == before.with_file(file@));
                }
                Ok(())
            },
        }
    }

    /// Takes a finished nested directory into this summary: its totals are added, copies of
    /// its files are appended, and the child becomes the last nested summary.
    ///
    /// Fails, and leaves the summary as it was, exactly when the new total would not fit.
    pub fn add_subdirectory(&mut self, child: DirectorySummary) -> (added: Result<
        (),
        AnalysisError,
    >)
        requires
            old(self)@.consistent(),
            child@.consistent(),
        ensures
            old(self)@.total_size + child@.total_size <= u64::MAX ==> added == Ok::<
                (),
                AnalysisError,
            >(()) && final(self)@ == old(self)@.with_subdirectory(child@),
            old(self)@.total_size + child@.total_size > u64::MAX ==> added == Err::<
                (),
                AnalysisError,
            >(AnalysisError::TotalSizeOverflow) && *final(self) == *old(self),
            final(self)@.consistent(),
    {
        match self.total_size.checked_add(child.total_size) {
            None => Err(AnalysisError::TotalSizeOverflow),
            Some(total) => {
                let ghost before = self@;
                let ghost nested = self.subdirectories;
                let mut i: usize = 0;
                while i < child.files.len()
                    invariant
                        i <= child.files.len(),
                        self.directory == old(self).directory,
                        self.total_size == old(self).total_size,
                        self.file_count == old(self).file_count,
                        self.subdirectories == old(self).subdirectories,
                        file_views(self.files@) == before.files + file_views(child.files@).take(
                            i as int,
                        ),
                    decreases child.files.len() - i,
                {
                    let ghost sofar = file_views(self.files@);
                    let copy = child.files[i].clone();
                    self.files.push(copy);
                    proof {
                        let taken = file_views(child.files@);
                        assert(taken.take(i + 1) =~= taken.take(i as int).push(taken[i as int]));
                        assert(file_views(self.files@) =~= sofar.push(copy@));
                        assert(file_views(self.files@) =~= before.files + taken.take(i + 1));
                    }
                    i += 1;
                }
                self.total_size = total;
                self.file_count = self.files.len();
                self.subdirectories.push(child);
                proof {
                    let taken = file_views(child.files@);
                    assert(taken.take(taken.len() as int) =~= taken);
                    lemma_total_size_of_concat(before.files, child@.files);
                    lemma_summary_views(nested, nested@.len());
                    lemma_summary_views(self.subdirectories, self.subdirectories@.len());
                    assert(self@.subdirectories =~= before.subdirectories.push(child@));
                    assert(self@ == before.with_subdirectory(child@));
                }
                Ok(())
            },
        }
    }
}

impl Clone for DirectorySummary {
    fn clone(&self) -> (copy: Self)
        ensures
            copy@ == self@,
        decreases self,
    {
        let mut files: Vec<FileInfo> = Vec::new();
        let mut i: usize = 0;
        while i < self.files.len()
            invariant
                i <= self.files.len(),
                files@.len() == i,
                forall|k: int| 0 <= k < i ==> files@[k]@ == self.files@[k]@,
            decreases self.files.len() - i,
        {
            files.push(self.files[i].clone());
            i += 1;
        }
        let mut subdirectories: Vec<DirectorySummary> = Vec::new();
        let mut j: usize = 0;
        while j < self.subdirectories.len()
            invariant
                j <= self.subdirectories.len(),
                subdirectories@.len() == j,
                forall|k: int| 0 <= k < j ==> subdirectories@[k]@ == self.subdirectories@[k]@,
            decreases self.subdirectories.len() - j,
        {
            subdirectories.push(self.subdirectories[j].clone());
            j += 1;
        }
        let copy = DirectorySummary {
            directory: self.directory.clone(),
            total_size: self.total_size,
            file_count: self.file_count,
            files,
            subdirectories,
        };
        proof {
            lemma_summary_views(copy.subdirectories, copy.subdirectories@.len());
            lemma_summary_views(self.subdirectories, self.subdirectories@.len());
            assert(copy@.files =~= self@.files);
            assert(copy@.subdirectories =~= self@.subdirectories);
        }
        copy
    }
}

} // verus!
