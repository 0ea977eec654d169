//! The aggregate size of a directory tree: the bytes of all the files
//! under it, at any depth.

use vstd::prelude::*;
use crate::entry::{Directory, DirectoryView, FSEntry, FSEntryView, FileView};

verus! {

/// The sum of the sizes of `files`.
pub open spec fn files_size(files: Seq<FileView>) -> nat {
    files.fold_left(0nat, |sum: nat, file: FileView| sum + file.size)
}

/// The sum of the aggregate sizes of `dirs`.
pub open spec fn forest_size(dirs: Seq<DirectoryView>) -> nat
    decreases dirs,
{
    if dirs.len() == 0 {
        0
    } else {
        forest_size(dirs.drop_last()) + dirs.last().aggregate()
    }
}

/// The files under `dirs`, at any depth, tree by tree.
pub open spec fn forest_files(dirs: Seq<DirectoryView>) -> Seq<FileView>
    decreases dirs,
{
    if dirs.len() == 0 {
        Seq::empty()
    } else {
        forest_files(dirs.drop_last()) + dirs.last().all_files()
    }
}

impl DirectoryView {
    /// The aggregate size: the sizes of the directory's own files plus the
    /// aggregate sizes of its sub-directories. The metadata sizes of
    /// directories play no part.
    pub open spec fn aggregate(self) -> nat
        decreases self,
    {
        files_size(self.files) + forest_size(self.dirs)
    }

    /// Every file that can be reached from the directory: its own files,
    /// then those of each sub-directory in turn.
    pub open spec fn all_files(self) -> Seq<FileView>
        decreases self,
    {
        self.files + forest_files(self.dirs)
    }
}

/// Appending a file adds its size.
pub proof fn lemma_files_size_push(files: Seq<FileView>, file: FileView)
    ensures
        files_size(files.push(file)) == files_size(files) + file.size,
{
    assert(files.push(file).drop_last() =~= files);
}

/// The size of two runs of files, one after the other, is the sum of
/// their sizes.
pub proof fn lemma_files_size_concat(first: Seq<FileView>, second: Seq<FileView>)
    ensures
        files_size(first + second) == files_size(first) + files_size(second),
    decreases second.len(),
{
    if second.len() > 0 {
        lemma_files_size_concat(first, second.drop_last());
        assert((first + second).drop_last() =~= first + second.drop_last());
    }
}

/// Appending a directory adds its aggregate size.
pub proof fn lemma_forest_size_push(dirs: Seq<DirectoryView>, dir: DirectoryView)
    ensures
        forest_size(dirs.push(dir)) == forest_size(dirs) + dir.aggregate(),
{
    assert(dirs.push(dir).drop_last() =~= dirs);
}

/// The aggregate size of two runs of directories, one after the other, is
/// the sum of their aggregate sizes.
pub proof fn lemma_forest_size_concat(first: Seq<DirectoryView>, second: Seq<DirectoryView>)
    ensures
        forest_size(first + second) == forest_size(first) + forest_size(second),
    decreases second.len(),
{
    if second.len() > 0 {
        lemma_forest_size_concat(first, second.drop_last());
        assert((first + second).drop_last() =~= first + second.drop_last());
    }
}

/// The aggregate size of a run of trees is the sum of the sizes of all
/// the files in them.
proof fn lemma_forest_counts_every_file(dirs: Seq<DirectoryView>)
    ensures
        forest_size(dirs) == files_size(forest_files(dirs)),
    decreases dirs,
{
    if dirs.len() > 0 {
        lemma_forest_counts_every_file(dirs.drop_last());
        lemma_aggregate_counts_every_file(dirs.last());
        lemma_files_size_concat(forest_files(dirs.drop_last()), dirs.last().all_files());
    }
}

/// The aggregate size of a directory is the sum of the sizes of all the
/// files that can be reached from it, however deep they lie.
pub proof fn lemma_aggregate_counts_every_file(dir: DirectoryView)
    ensures
        dir.aggregate() == files_size(dir.all_files()),
    decreases dir,
{
    lemma_forest_counts_every_file(dir.dirs);
    lemma_files_size_concat(dir.files, forest_files(dir.dirs));
}

/// The order in which files are met does not affect their size.
pub proof fn lemma_files_size_ignores_order(first: Seq<FileView>, second: Seq<FileView>)
    requires
        first.to_multiset() == second.to_multiset(),
    ensures
        files_size(first) == files_size(second),
{
    let plus = |sum: nat, file: FileView| sum + file.size;
    vstd::seq_lib::lemma_fold_left_permutation(first, second, plus, 0nat);
}

/// Two trees that hold the same files, in whatever order and shape, have
/// the same aggregate size.
pub proof fn lemma_aggregate_ignores_order(first: DirectoryView, second: DirectoryView)
    requires
        first.all_files().to_multiset() == second.all_files().to_multiset(),
    ensures
        first.aggregate() == second.aggregate(),
{
    lemma_aggregate_counts_every_file(first);
    lemma_aggregate_counts_every_file(second);
    lemma_files_size_ignores_order(first.all_files(), second.all_files());
}

/// A directory without children has aggregate size 0, whatever its
/// metadata size.
pub proof fn lemma_bare_directory_is_empty(path: Seq<char>, size: nat)
    ensures
        DirectoryView::bare(path, size).aggregate() == 0,
        DirectoryView::bare(path, size).all_files() == Seq::<FileView>::empty(),
{
}

/// The number of directories in the trees `dirs`.
pub open spec fn forest_count(dirs: Seq<DirectoryView>) -> nat
    decreases dirs,
{
    if dirs.len() == 0 {
        0
    } else {
        forest_count(dirs.drop_last()) + 1 + forest_count(dirs.last().dirs)
    }
}

/// The directories in two runs of trees, one after the other, are those
/// of the one and those of the other.
proof fn lemma_forest_count_concat(first: Seq<DirectoryView>, second: Seq<DirectoryView>)
    ensures
        forest_count(first + second) == forest_count(first) + forest_count(second),
    decreases second.len(),
{
    if second.len() > 0 {
        lemma_forest_count_concat(first, second.drop_last());
        assert((first + second).drop_last() =~= first + second.drop_last());
    }
}

/// The views of the directories that wait to be counted.
spec fn waiting_view(waiting: Seq<&Directory>) -> Seq<DirectoryView> {
    Seq::new(waiting.len(), |i: int| waiting[i]@)
}

impl Directory {
    /// Adds up the sizes of all the files under the directory, at any
    /// depth. `None` means that the sum does not fit in 64 bits.
    ///
    /// The tree is walked with a work list, so its depth is not bounded
    /// by the call stack.
    #[verifier::loop_isolation(false)]
    pub fn aggregate_size(&self) -> (total: Option<u64>)
        ensures
            total == if self@.aggregate() <= u64::MAX {
                Some(self@.aggregate() as u64)
            } else {
                None
            },
            self@.aggregate() == files_size(self@.all_files()),
    {
        proof {
            lemma_aggregate_counts_every_file(self@);
        }
        let mut sum: u64 = 0;
        let mut waiting: Vec<&Directory> = Vec::new();
        waiting.push(self);
        proof {
            assert(waiting_view(waiting@) =~= seq![self@]);
            assert(seq![self@].drop_last() =~= Seq::<DirectoryView>::empty());
            assert(forest_size(Seq::<DirectoryView>::empty()) == 0);
        }
        while waiting.len() > 0
            invariant
                sum + forest_size(waiting_view(waiting@)) == self@.aggregate(),
            decreases forest_count(waiting_view(waiting@)),
        {
            let ghost before = waiting_view(waiting@);
            let dir = waiting.pop().unwrap();
            let ghost above = waiting_view(waiting@);
            let ghost files = dir@.files;
            let ghost dirs = dir@.dirs;
            proof {
                assert(above =~= before.drop_last());
                assert(forest_size(before) == forest_size(above) + dir@.aggregate());
            }
            let ghost counted = sum;
            let mut i: usize = 0;
            while i < dir.files.len()
                invariant
                    i <= dir.files.len(),
                    files == dir@.files,
                    files.len() == dir.files.len(),
                    sum == counted + files_size(files.take(i as int)),
                    counted + files_size(files) + forest_size(dirs) + forest_size(above)
                        == self@.aggregate(),
                decreases dir.files.len() - i,
            {
                proof {
                    assert(files.take(i + 1) =~= files.take(i as int).push(files[i as int]));
                    lemma_files_size_push(files.take(i as int), files[i as int]);
                    assert(files =~= files.take(i + 1) + files.skip(i + 1));
                    lemma_files_size_concat(files.take(i + 1), files.skip(i + 1));
                }
                match sum.checked_add(dir.files[i].size) {
                    Some(more) => {
                        sum = more;
                    },
                    None => {
                        return None;
                    },
                }
                i = i + 1;
            }
            let mut j: usize = 0;
            while j < dir.dirs.len()
                invariant
                    j <= dir.dirs.len(),
                    dirs == dir@.dirs,
                    dirs.len() == dir.dirs.len(),
                    waiting_view(waiting@) == above + dirs.take(j as int),
                decreases dir.dirs.len() - j,
            {
                let ghost held = waiting_view(waiting@);
                waiting.push(&dir.dirs[j]);
                proof {
                    assert(waiting_view(waiting@) =~= held.push(dirs[j as int]));
                }
                j = j + 1;
            }
            proof {
                assert(dirs.take(j as int) =~= dirs);
                lemma_forest_size_concat(above, dirs);
                lemma_forest_count_concat(above, dirs);
            }
        }
        Some(sum)
    }
}

impl FSEntryView {
    /// The aggregate size of the entry: for a directory the bytes of all
    /// the files under it, for a file its size, for a symbolic link
    /// nothing, whatever the link's own length and whatever it points to.
    pub open spec fn aggregate(self) -> nat {
        match self {
            FSEntryView::Directory(dir) => dir.aggregate(),
            FSEntryView::File(file) => file.size,
            FSEntryView::SymLink(link) => 0,
        }
    }
}

impl FSEntry {
    /// The aggregate size of the entry. `None` means that the sum does
    /// not fit in 64 bits.
    pub fn aggregate_size(&self) -> (total: Option<u64>)
        ensures
            total == if self@.aggregate() <= u64::MAX {
                Some(self@.aggregate() as u64)
            } else {
                None
            },
            self is SymLink ==> total == Some(0u64),
    {
        match self {
            FSEntry::Directory(dir) => dir.aggregate_size(),
            FSEntry::File(file) => Some(file.size),
            FSEntry::SymLink(link) => Some(0),
        }
    }
}

} // verus!
