//! The entries of a file-system tree, their mathematical views and the
//! rule that classifies a path by its metadata.

use vstd::prelude::*;

verus! {

/// What the file system reports about one path at one point in time.
///
/// The three kind flags are kept as reported; classification reads them in
/// a fixed order, so it is defined even if more than one is set.
#[derive(Clone, Copy, Debug, PartialEq, Eq, Structural)]
pub struct Metadata {
    pub is_dir: bool,
    pub is_file: bool,
    pub is_symlink: bool,
    /// The length in bytes that the file system reports for the entry itself.
    pub len: u64,
}

impl Metadata {
    /// Exactly one of the three kind flags is set.
    pub open spec fn one_kind(self) -> bool {
        if self.is_dir {
            !self.is_file && !self.is_symlink
        } else {
            self.is_file != self.is_symlink
        }
    }
}

/// A regular file: its path and its length in bytes.
#[derive(Clone, Debug, PartialEq, Eq)]
pub struct File {
    pub path: String,
    pub size: u64,
}

/// A file as a mathematical value.
pub struct FileView {
    pub path: Seq<char>,
    pub size: nat,
}

impl View for File {
    type V = FileView;

    open spec fn view(&self) -> FileView {
        FileView { path: self.path@, size: self.size as nat }
    }
}

impl File {
    /// The file at `path` with `size` bytes.
    pub fn from(path: String, size: u64) -> (file: Self)
        ensures
            file@ == (FileView { path: path@, size: size as nat }),
    {
        Self { path, size }
    }
}

/// A symbolic link: its path and the length of the link itself. A link is
/// recorded, never followed.
#[derive(Clone, Debug, PartialEq, Eq)]
pub struct SymLink {
    pub path: String,
    pub size: u64,
}

/// A symbolic link as a mathematical value.
pub struct SymLinkView {
    pub path: Seq<char>,
    pub size: nat,
}

impl View for SymLink {
    type V = SymLinkView;

    open spec fn view(&self) -> SymLinkView {
        SymLinkView { path: self.path@, size: self.size as nat }
    }
}

impl SymLink {
    /// The symbolic link at `path` whose own length is `size` bytes.
    pub fn from(path: String, size: u64) -> (link: Self)
        ensures
            link@ == (SymLinkView { path: path@, size: size as nat }),
    {
        Self { path, size }
    }
}

/// A directory: its path, the length that the file system reports for the
/// directory entry itself, and the sub-directories and files that it owns.
///
/// `size` is the metadata size. It is not the sum of what the directory
/// contains; that sum is the aggregate size.
#[derive(Debug, PartialEq, Eq)]
pub struct Directory {
    pub path: String,
    pub size: u64,
    pub dirs: Vec<Directory>,
    pub files: Vec<File>,
}

/// A directory tree as a mathematical value.
pub struct DirectoryView {
    pub path: Seq<char>,
    pub size: nat,
    pub dirs: Seq<DirectoryView>,
    pub files: Seq<FileView>,
}

/// The view of a directory: the views of its parts, all the way down.
pub open spec fn directory_view(dir: Directory) -> DirectoryView
    decreases dir,
{
    DirectoryView {
        path: dir.path@,
        size: dir.size as nat,
        dirs: Seq::new(
            dir.dirs.len() as nat,
            |i: int|
                if 0 <= i < dir.dirs.len() {
                    directory_view(dir.dirs[i])
                } else {
                    arbitrary()
                },
        ),
        files: Seq::new(dir.files.len() as nat, |i: int| dir.files[i]@),
    }
}

impl View for Directory {
    type V = DirectoryView;

    open spec fn view(&self) -> DirectoryView {
        directory_view(*self)
    }
}

impl DirectoryView {
    /// The directory at `path` with metadata size `size` and no children.
    pub open spec fn bare(path: Seq<char>, size: nat) -> DirectoryView {
        DirectoryView { path, size, dirs: Seq::empty(), files: Seq::empty() }
    }

    /// The number of levels of directories in the tree: 1 for a directory
    /// without sub-directories.
    pub open spec fn height(self) -> nat
        decreases self,
    {
        1 + forest_height(self.dirs)
    }
}

/// The height of the highest of `dirs`; 0 if there is none.
pub open spec fn forest_height(dirs: Seq<DirectoryView>) -> nat
    decreases dirs,
{
    if dirs.len() == 0 {
        0
    } else {
        let before = forest_height(dirs.drop_last());
        let last = dirs.last().height();
        if before >= last {
            before
        } else {
            last
        }
    }
}

impl Directory {
    /// A directory whose children have not been read yet.
    pub fn from(path: String, size: u64) -> (dir: Self)
        ensures
            dir@ == DirectoryView::bare(path@, size as nat),
    {
        let dir = Self { path, size, dirs: Vec::new(), files: Vec::new() };
        assert(dir@.dirs =~= Seq::empty());
        assert(dir@.files =~= Seq::empty());
        dir
    }
}

/// The classification of one path.
#[derive(Debug, PartialEq, Eq)]
pub enum FSEntry {
    Directory(Directory),
    File(File),
    SymLink(SymLink),
}

/// A classified entry as a mathematical value.
pub enum FSEntryView {
    Directory(DirectoryView),
    File(FileView),
    SymLink(SymLinkView),
}

impl View for FSEntry {
    type V = FSEntryView;

    open spec fn view(&self) -> FSEntryView {
        match self {
            FSEntry::Directory(dir) => FSEntryView::Directory(dir@),
            FSEntry::File(file) => FSEntryView::File(file@),
            FSEntry::SymLink(link) => FSEntryView::SymLink(link@),
        }
    }
}

/// The entry that a path with the given metadata denotes: a directory if
/// the metadata says so, else a symbolic link if it says so, else a file.
/// The entry's size is the metadata's length; a directory starts without
/// children.
pub open spec fn classify(path: Seq<char>, metadata: Metadata) -> FSEntryView {
    if metadata.is_dir {
        FSEntryView::Directory(DirectoryView::bare(path, metadata.len as nat))
    } else if metadata.is_symlink {
        FSEntryView::SymLink(SymLinkView { path, size: metadata.len as nat })
    } else {
        FSEntryView::File(FileView { path, size: metadata.len as nat })
    }
}

impl FSEntryView {
    /// The path of the entry, whatever its kind.
    pub open spec fn path(self) -> Seq<char> {
        match self {
            FSEntryView::Directory(dir) => dir.path,
            FSEntryView::File(file) => file.path,
            FSEntryView::SymLink(link) => link.path,
        }
    }

    /// The metadata size of the entry, whatever its kind.
    pub open spec fn size(self) -> nat {
        match self {
            FSEntryView::Directory(dir) => dir.size,
            FSEntryView::File(file) => file.size,
            FSEntryView::SymLink(link) => link.size,
        }
    }
}

/// Classification keeps the path and takes the length of the metadata as
/// the entry's size, whatever the kind.
pub proof fn lemma_classify_keeps_path_and_size(path: Seq<char>, metadata: Metadata)
    ensures
        classify(path, metadata).path() == path,
        classify(path, metadata).size() == metadata.len,
{
}

impl FSEntry {
    /// The path of the entry, whatever its kind.
    pub fn path(&self) -> (path: &String)
        ensures
            path@ == self@.path(),
    {
        match self {
            FSEntry::Directory(dir) => &dir.path,
            FSEntry::File(file) => &file.path,
            FSEntry::SymLink(link) => &link.path,
        }
    }

    /// The metadata size of the entry, whatever its kind.
    pub fn size(&self) -> (size: u64)
        ensures
            size == self@.size(),
    {
        match self {
            FSEntry::Directory(dir) => dir.size,
            FSEntry::File(file) => file.size,
            FSEntry::SymLink(link) => link.size,
        }
    }

    /// Classifies `path` by metadata that the caller has already fetched.
    pub fn from(path: String, metadata: Metadata) -> (entry: FSEntry)
        ensures
            entry@ == classify(path@, metadata),
    {
        if metadata.is_dir {
            FSEntry::Directory(Directory::from(path, metadata.len))
        } else if metadata.is_symlink {
            FSEntry::SymLink(SymLink::from(path, metadata.len))
        } else {
            FSEntry::File(File::from(path, metadata.len))
        }
    }
}

} // verus!
