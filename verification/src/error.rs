//! The ways in which a scan can fail.

use vstd::prelude::*;

verus! {

/// Why a scan was abandoned.
#[derive(Clone, Copy, Debug, PartialEq, Eq, Structural)]
pub enum ErrorKind {
    /// The path does not exist.
    PathNotFound,
    /// The path exists but the file system would not report on it.
    MetadataUnavailable,
    /// The children of a directory could not be enumerated.
    DirectoryUnreadable,
    /// A directory lies deeper below the scan root than `MAX_DEPTH` levels.
    DeepRecursionLimit,
    /// The byte count no longer fits in 64 bits.
    TotalOverflow,
}

/// A failure, the path at which it occurred and what the system said.
#[derive(Debug, PartialEq, Eq)]
pub struct ScanError {
    pub kind: ErrorKind,
    pub path: String,
    pub cause: String,
}

/// A failure as a mathematical value.
pub struct ScanErrorView {
    pub kind: ErrorKind,
    pub path: Seq<char>,
    pub cause: Seq<char>,
}

impl View for ScanError {
    type V = ScanErrorView;

    open spec fn view(&self) -> ScanErrorView {
        ScanErrorView { kind: self.kind, path: self.path@, cause: self.cause@ }
    }
}

impl Clone for ScanError {
    fn clone(&self) -> (copy: Self)
        ensures
            copy@ == self@,
    {
        Self { kind: self.kind, path: self.path.clone(), cause: self.cause.clone() }
    }
}

impl ScanError {
    /// A failure reported by the file system at `path`.
    pub fn new(kind: ErrorKind, path: String, cause: String) -> (error: Self)
        ensures
            error@ == (ScanErrorView { kind, path: path@, cause: cause@ }),
    {
        Self { kind, path, cause }
    }

    /// A failure that the scan itself detects at `path`; no system message
    /// goes with it.
    pub fn internal(kind: ErrorKind, path: String) -> (error: Self)
        ensures
            error@ == internal_error(kind, path@),
    {
        Self { kind, path, cause: String::new() }
    }
}

/// The error of kind `kind` at `path` with an empty system message.
pub open spec fn internal_error(kind: ErrorKind, path: Seq<char>) -> ScanErrorView {
    ScanErrorView { kind, path, cause: Seq::empty() }
}

} // verus!
