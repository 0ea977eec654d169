//! A model of the file system that a walk is run against.

use vstd::prelude::*;
use crate::error::ScanErrorView;
use crate::walk::ListedView;

verus! {

/// What the file system answers when asked to list the directory at a
/// path: its children in the order in which they are enumerated, or the
/// failure. The model is a function, so the same question always gets the
/// same answer: it stands for a tree that is not modified during a walk.
pub struct Disk {
    pub listing: spec_fn(Seq<char>) -> Result<Seq<ListedView>, ScanErrorView>,
}

impl Disk {
    /// The answer to the request for the listing of `path`.
    pub open spec fn list(self, path: Seq<char>) -> Result<Seq<ListedView>, ScanErrorView> {
        (self.listing)(path)
    }

    /// Every child that any listing yields is of exactly one kind.
    pub open spec fn plain(self) -> bool {
        forall|path: Seq<char>| #[trigger]
            self.list(path) matches Ok(children) ==> plain_listing(children)
    }
}

/// Every child of the listing is of exactly one kind: a directory, a file
/// or a symbolic link.
pub open spec fn plain_listing(children: Seq<ListedView>) -> bool {
    forall|i: int| 0 <= i < children.len() ==> (#[trigger] children[i]).metadata.one_kind()
}

} // verus!
