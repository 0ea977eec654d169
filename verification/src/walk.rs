//! What a walk asks of its caller and what the caller answers.
//!
//! A walk reads nothing itself. It asks for the listing of one directory
//! at a time, and the caller answers with the children it found or with
//! the failure it met.

use vstd::prelude::*;
use crate::entry::Metadata;
use crate::error::{ScanError, ScanErrorView};

verus! {

/// The deepest level below the scan root, the root being level 0, at which
/// a directory is still entered.
pub const MAX_DEPTH: usize = 4096;

/// One child of a directory as its listing yields it: the child's path and
/// the child's own metadata (a symbolic link is not followed).
#[derive(Clone, Debug, PartialEq, Eq)]
pub struct Listed {
    pub path: String,
    pub metadata: Metadata,
}

/// A listed child as a mathematical value.
pub struct ListedView {
    pub path: Seq<char>,
    pub metadata: Metadata,
}

impl View for Listed {
    type V = ListedView;

    open spec fn view(&self) -> ListedView {
        ListedView { path: self.path@, metadata: self.metadata }
    }
}

impl Listed {
    /// The child at `path` with the metadata that the listing gave for it.
    pub fn new(path: String, metadata: Metadata) -> (listed: Self)
        ensures
            listed@ == (ListedView { path: path@, metadata }),
    {
        Self { path, metadata }
    }
}

/// The views of the children of a listing, in listing order.
pub open spec fn listing_view(listing: Seq<Listed>) -> Seq<ListedView> {
    Seq::new(listing.len(), |i: int| listing[i]@)
}

/// The view of what the caller found when it tried to list a directory.
pub open spec fn reply_view(listing: Result<Vec<Listed>, ScanError>) -> Result<
    Seq<ListedView>,
    ScanErrorView,
> {
    match listing {
        Ok(entries) => Ok(listing_view(entries@)),
        Err(error) => Err(error@),
    }
}

/// The view of what the caller found when it tried to fetch metadata.
pub open spec fn stat_view(stat: Result<Metadata, ScanError>) -> Result<Metadata, ScanErrorView> {
    match stat {
        Ok(metadata) => Ok(metadata),
        Err(error) => Err(error@),
    }
}

} // verus!
