//! The streaming reporter: walks a subtree depth first, emits the lines of
//! the report as it goes and adds up the bytes of the files it meets,
//! without keeping the tree.
//!
//! The reporter never touches the file system. It names the directory whose
//! listing it needs next; the caller reads that directory and hands the
//! listing, or the failure, to `Reporter::step`.

use vstd::prelude::*;
use crate::disk::Disk;
use crate::entry::Metadata;
use crate::error::{internal_error, ErrorKind, ScanError, ScanErrorView};
use crate::report_course::lemma_step_keeps_course;
use crate::walk::{listing_view, reply_view, stat_view, Listed, ListedView, MAX_DEPTH};

verus! {

/// One line of the report. `depth` counts levels below the scan root; a
/// line is indented by two spaces per level.
#[derive(Clone, Debug, PartialEq, Eq)]
pub enum Line {
    /// A file and its size.
    Entry { depth: usize, path: String, size: u64 },
    /// A sub-directory that is about to be entered.
    Announce { depth: usize, path: String },
    /// A directory that has been left, with the bytes of the files that
    /// lie directly in it.
    Summary { depth: usize, path: String, local: u64 },
    /// The bytes of all files under the sub-directory that was just left.
    DirSum { total: u64 },
    /// The bytes of all files under the scan root. It ends the report.
    Total { total: u64 },
}

/// A line as a mathematical value.
pub enum LineView {
    Entry { depth: nat, path: Seq<char>, size: nat },
    Announce { depth: nat, path: Seq<char> },
    Summary { depth: nat, path: Seq<char>, local: nat },
    DirSum { total: nat },
    Total { total: nat },
}

impl View for Line {
    type V = LineView;

    open spec fn view(&self) -> LineView {
        match self {
            Line::Entry { depth, path, size } => LineView::Entry {
                depth: *depth as nat,
                path: path@,
                size: *size as nat,
            },
            Line::Announce { depth, path } => LineView::Announce {
                depth: *depth as nat,
                path: path@,
            },
            Line::Summary { depth, path, local } => LineView::Summary {
                depth: *depth as nat,
                path: path@,
                local: *local as nat,
            },
            Line::DirSum { total } => LineView::DirSum { total: *total as nat },
            Line::Total { total } => LineView::Total { total: *total as nat },
        }
    }
}

/// The views of a run of lines, in order.
pub open spec fn lines_view(lines: Seq<Line>) -> Seq<LineView> {
    Seq::new(lines.len(), |i: int| lines[i]@)
}

/// A directory that the walk has entered and not yet left.
pub struct FrameView {
    pub path: Seq<char>,
    /// The children that have not been handled yet, in listing order.
    pub rest: Seq<ListedView>,
    /// The bytes of the files directly in the directory, as far as handled.
    pub local: nat,
    /// The bytes of all files under the directory, as far as handled.
    pub total: nat,
}

impl FrameView {
    /// The local bytes are part of the total, and the total fits in 64
    /// bits.
    pub open spec fn wf(self) -> bool {
        self.local <= self.total <= u64::MAX
    }

    /// The frame of a directory whose listing has just arrived.
    pub open spec fn enter(path: Seq<char>, listing: Seq<ListedView>) -> FrameView {
        FrameView { path, rest: listing, local: 0, total: 0 }
    }
}

/// The state of a walk.
pub enum ReportView {
    /// The walk waits for the listing of the directory at `path`; `stack`
    /// holds the directories above it, the scan root first.
    Listing { stack: Seq<FrameView>, path: Seq<char> },
    /// The walk is over; `total` is the byte count of the whole subtree.
    Done { total: nat },
    /// The walk was abandoned. There is no total.
    Failed { error: ScanErrorView },
}

/// `step` with `lines` put in front of the lines that it emitted.
pub open spec fn prepend(lines: Seq<LineView>, step: (ReportView, Seq<LineView>)) -> (
    ReportView,
    Seq<LineView>,
) {
    (step.0, lines + step.1)
}

impl ReportView {
    /// The state can be reached: no more directories are open than the
    /// depth limit allows, and every count fits in 64 bits.
    pub open spec fn wf(self) -> bool {
        match self {
            ReportView::Listing { stack, path } => {
                &&& stack.len() <= MAX_DEPTH
                &&& forall|i: int| 0 <= i < stack.len() ==> (#[trigger] stack[i]).wf()
            },
            ReportView::Done { total } => total <= u64::MAX,
            ReportView::Failed { error } => true,
        }
    }

    /// The walk of the subtree at `path`, whose metadata is known, before
    /// any listing, and the lines that this emits: a file is counted at
    /// once, a directory waits for its listing, anything else counts as
    /// nothing.
    pub open spec fn start(path: Seq<char>, metadata: Metadata) -> (ReportView, Seq<LineView>) {
        let size = metadata.len as nat;
        if metadata.is_file {
            (
                ReportView::Done { total: size },
                seq![LineView::Entry { depth: 0, path, size }, LineView::Total { total: size }],
            )
        } else if metadata.is_dir {
            (ReportView::Listing { stack: Seq::empty(), path }, Seq::empty())
        } else {
            (ReportView::Done { total: 0 }, seq![LineView::Total { total: 0 }])
        }
    }

    /// `start`, for a root whose metadata the caller tried to fetch: a
    /// failure to fetch it ends the walk before it began.
    pub open spec fn open(path: Seq<char>, stat: Result<Metadata, ScanErrorView>) -> (
        ReportView,
        Seq<LineView>,
    ) {
        match stat {
            Ok(metadata) => Self::start(path, metadata),
            Err(error) => (ReportView::Failed { error }, Seq::empty()),
        }
    }

    /// The walk goes on from inside the directory of `frame`, below the
    /// directories of `stack`, until it needs another listing or ends.
    ///
    /// Children are handled in listing order. A file is reported and
    /// counted into the directory's local and total bytes. A sub-directory
    /// is announced and its listing asked for, unless it lies too deep.
    /// Anything else is passed over. When no child is left the directory
    /// is summarised and its total folded into its parent's; at the root
    /// the total ends the report.
    pub open spec fn settle(stack: Seq<FrameView>, frame: FrameView) -> (
        ReportView,
        Seq<LineView>,
    )
        decreases stack.len(), frame.rest.len(),
    {
        let depth = stack.len();
        if frame.rest.len() > 0 {
            let entry = frame.rest[0];
            let size = entry.metadata.len as nat;
            let rest = frame.rest.drop_first();
            if entry.metadata.is_file {
                if frame.total + size > u64::MAX {
                    (
                        ReportView::Failed {
                            error: internal_error(ErrorKind::TotalOverflow, entry.path),
                        },
                        Seq::empty(),
                    )
                } else {
                    prepend(
                        seq![LineView::Entry { depth: depth + 1, path: entry.path, size }],
                        Self::settle(
                            stack,
                            FrameView {
                                path: frame.path,
                                rest,
                                local: frame.local + size,
                                total: frame.total + size,
                            },
                        ),
                    )
                }
            } else if entry.metadata.is_dir {
                if depth >= MAX_DEPTH {
                    (
                        ReportView::Failed {
                            error: internal_error(ErrorKind::DeepRecursionLimit, entry.path),
                        },
                        Seq::empty(),
                    )
                } else {
                    (
                        ReportView::Listing {
                            stack: stack.push(
                                FrameView {
                                    path: frame.path,
                                    rest,
                                    local: frame.local,
                                    total: frame.total,
                                },
                            ),
                            path: entry.path,
                        },
                        seq![LineView::Announce { depth: depth + 1, path: entry.path }],
                    )
                }
            } else {
                Self::settle(
                    stack,
                    FrameView { path: frame.path, rest, local: frame.local, total: frame.total },
                )
            }
        } else {
            let summary = LineView::Summary { depth, path: frame.path, local: frame.local };
            if depth == 0 {
                (
                    ReportView::Done { total: frame.total },
                    seq![summary, LineView::Total { total: frame.total }],
                )
            } else {
                let parent = stack.last();
                let dirsum = LineView::DirSum { total: frame.total };
                if parent.total + frame.total > u64::MAX {
                    (
                        ReportView::Failed {
                            error: internal_error(ErrorKind::TotalOverflow, parent.path),
                        },
                        seq![summary, dirsum],
                    )
                } else {
                    prepend(
                        seq![summary, dirsum],
                        Self::settle(
                            stack.drop_last(),
                            FrameView {
                                path: parent.path,
                                rest: parent.rest,
                                local: parent.local,
                                total: parent.total + frame.total,
                            },
                        ),
                    )
                }
            }
        }
    }

    /// The walk after the caller has answered the pending request with
    /// `listing`, and the lines that this emits. A failure abandons the
    /// walk. A walk that is over stays as it is.
    pub open spec fn step(self, listing: Result<Seq<ListedView>, ScanErrorView>) -> (
        ReportView,
        Seq<LineView>,
    ) {
        match self {
            ReportView::Listing { stack, path } => match listing {
                Ok(entries) => Self::settle(stack, FrameView::enter(path, entries)),
                Err(error) => (ReportView::Failed { error }, Seq::empty()),
            },
            _ => (self, Seq::empty()),
        }
    }
}

struct Frame {
    path: String,
    entries: Vec<Listed>,
    cursor: usize,
    local: u64,
    total: u64,
}

impl Frame {
    spec fn view(&self) -> FrameView {
        FrameView {
            path: self.path@,
            rest: listing_view(self.entries@).skip(self.cursor as int),
            local: self.local as nat,
            total: self.total as nat,
        }
    }

    spec fn ok(&self) -> bool {
        self.cursor <= self.entries.len() && self.local <= self.total
    }
}

spec fn stack_view(stack: Seq<Frame>) -> Seq<FrameView> {
    Seq::new(stack.len(), |i: int| stack[i].view())
}

spec fn stack_ok(stack: Seq<Frame>) -> bool {
    &&& stack.len() <= MAX_DEPTH
    &&& forall|i: int| 0 <= i < stack.len() ==> (#[trigger] stack[i]).ok()
}

enum State {
    Listing { stack: Vec<Frame>, path: String },
    Done { total: u64 },
    Failed { error: ScanError },
}

/// A walk in progress. It is made by `traverse_path` or
/// `traverse_from_metadata` and driven by `step`.
pub struct Reporter {
    state: State,
}

impl View for Reporter {
    type V = ReportView;

    closed spec fn view(&self) -> ReportView {
        match self.state {
            State::Listing { stack, path } => ReportView::Listing {
                stack: stack_view(stack@),
                path: path@,
            },
            State::Done { total } => ReportView::Done { total: total as nat },
            State::Failed { error } => ReportView::Failed { error: error@ },
        }
    }
}

impl Reporter {
    #[verifier::type_invariant]
    spec fn inv(self) -> bool {
        match self.state {
            State::Listing { stack, path } => stack_ok(stack@),
            _ => true,
        }
    }

    /// The directory whose listing the walk waits for; `None` once the
    /// walk is over.
    pub fn pending(&self) -> (path: Option<&String>)
        ensures
            self@.wf(),
            match self@ {
                ReportView::Listing { stack, path: wanted } => path.is_some() && path.unwrap()@
                    == wanted,
                _ => path.is_none(),
            },
    {
        proof {
            use_type_invariant(self);
        }
        match &self.state {
            State::Listing { stack, path } => Some(path),
            _ => None,
        }
    }

    /// How the walk ended: the byte count of the subtree, or the failure;
    /// `None` while the walk is still under way.
    pub fn outcome(&self) -> (outcome: Option<Result<u64, ScanError>>)
        ensures
            match self@ {
                ReportView::Listing { stack, path } => outcome.is_none(),
                ReportView::Done { total } => outcome == Some(
                    Ok::<u64, ScanError>(total as u64),
                ) && total <= u64::MAX,
                ReportView::Failed { error } => outcome.is_some() && outcome.unwrap().is_err()
                    && outcome.unwrap().unwrap_err()@ == error,
            },
    {
        match &self.state {
            State::Listing { stack, path } => None,
            State::Done { total } => Some(Ok(*total)),
            State::Failed { error } => Some(Err(error.clone())),
        }
    }

    /// Hands the walk the answer to its pending request and returns the
    /// walk in its next state with the lines to print.
    ///
    /// On whatever file system the answer is the listing of the pending
    /// directory, the step takes one listing of what the walk comes to
    /// there and leaves the rest as it was.
    pub fn step(self, listing: Result<Vec<Listed>, ScanError>) -> (next: (Reporter, Vec<Line>))
        ensures
            (next.0@, lines_view(next.1@)) == self@.step(reply_view(listing)),
            next.0@.wf(),
            forall|disk: Disk|
                self@ is Listing && #[trigger] disk.list(self@->path) == reply_view(listing)
                    ==> disk.course(self@) == disk.course(next.0@).after(
                    lines_view(next.1@),
                    1,
                ),
    {
        proof {
            use_type_invariant(&self);
            assert forall|disk: Disk|
                self@ is Listing && #[trigger] disk.list(self@->path) == reply_view(
                    listing,
                ) implies disk.course(self@) == disk.course(
                self@.step(reply_view(listing)).0,
            ).after(self@.step(reply_view(listing)).1, 1) by {
                lemma_step_keeps_course(disk, self@);
            }
        }
        match self.state {
            State::Listing { stack, path } => match listing {
                Ok(entries) => {
                    let frame = Frame { path, entries, cursor: 0, local: 0, total: 0 };
                    assert(listing_view(entries@).skip(0) =~= listing_view(entries@));
                    settle(stack, frame)
                },
                Err(error) => {
                    let lines: Vec<Line> = Vec::new();
                    (Reporter { state: State::Failed { error } }, lines)
                },
            },
            other => {
                let lines: Vec<Line> = Vec::new();
                (Reporter { state: other }, lines)
            },
        }
    }
}

#[verifier::loop_isolation(false)]
fn settle(stack: Vec<Frame>, frame: Frame) -> (next: (Reporter, Vec<Line>))
    requires
        stack_ok(stack@),
        frame.ok(),
    ensures
        (next.0@, lines_view(next.1@)) == ReportView::settle(stack_view(stack@), frame.view()),
        next.0@.wf(),
{
    let ghost whole = ReportView::settle(stack_view(stack@), frame.view());
    let mut stack = stack;
    let mut frame = frame;
    let mut lines: Vec<Line> = Vec::new();
    loop
        invariant
            stack_ok(stack@),
            frame.ok(),
            whole == prepend(
                lines_view(lines@),
                ReportView::settle(stack_view(stack@), frame.view()),
            ),
        decreases stack.len(), frame.entries.len() - frame.cursor,
    {
        let ghost views = stack_view(stack@);
        let ghost here = frame.view();
        let depth: usize = stack.len();
        if frame.cursor < frame.entries.len() {
            let metadata = frame.entries[frame.cursor].metadata;
            let path = frame.entries[frame.cursor].path.clone();
            assert(here.rest.drop_first() =~= listing_view(frame.entries@).skip(frame.cursor + 1));
            frame.cursor = frame.cursor + 1;
            if metadata.is_file {
                match frame.total.checked_add(metadata.len) {
                    Some(total) => {
                        frame.local = frame.local + metadata.len;
                        frame.total = total;
                        lines.push(Line::Entry { depth: depth + 1, path, size: metadata.len });
                    },
                    None => {
                        let error = ScanError::internal(ErrorKind::TotalOverflow, path);
                        return (Reporter { state: State::Failed { error } }, lines);
                    },
                }
            } else if metadata.is_dir {
                if depth >= MAX_DEPTH {
                    let error = ScanError::internal(ErrorKind::DeepRecursionLimit, path);
                    return (Reporter { state: State::Failed { error } }, lines);
                } else {
                    lines.push(Line::Announce { depth: depth + 1, path: path.clone() });
                    stack.push(frame);
                    assert(stack_view(stack@) =~= views.push(frame.view()));
                    return (Reporter { state: State::Listing { stack, path } }, lines);
                }
            }
        } else {
            let Frame { path, entries, cursor, local, total } = frame;
            lines.push(Line::Summary { depth, path, local });
            match stack.pop() {
                None => {
                    lines.push(Line::Total { total });
                    return (Reporter { state: State::Done { total } }, lines);
                },
                Some(parent) => {
                    lines.push(Line::DirSum { total });
                    assert(stack_view(stack@) =~= views.drop_last());
                    match parent.total.checked_add(total) {
                        Some(sum) => {
                            frame = Frame {
                                path: parent.path,
                                entries: parent.entries,
                                cursor: parent.cursor,
                                local: parent.local,
                                total: sum,
                            };
                        },
                        None => {
                            let error = ScanError::internal(ErrorKind::TotalOverflow, parent.path);
                            return (Reporter { state: State::Failed { error } }, lines);
                        },
                    }
                },
            }
        }
    }
}

/// Begins the walk of the subtree at `path`, whose metadata the caller has
/// fetched, and returns the walk with the lines to print.
///
/// On whatever file system the walk is run, it comes to the report of
/// the subtree there.
pub fn traverse_from_metadata(path: String, metadata: Metadata) -> (started: (Reporter, Vec<Line>))
    ensures
        (started.0@, lines_view(started.1@)) == ReportView::start(path@, metadata),
        started.0@.wf(),
        forall|disk: Disk| #[trigger]
            disk.report(path@, metadata) == disk.course(started.0@).after(
                lines_view(started.1@),
                0,
            ),
{
    let mut lines: Vec<Line> = Vec::new();
    if metadata.is_file {
        lines.push(Line::Entry { depth: 0, path, size: metadata.len });
        lines.push(Line::Total { total: metadata.len });
        (Reporter { state: State::Done { total: metadata.len } }, lines)
    } else if metadata.is_dir {
        let stack: Vec<Frame> = Vec::new();
        assert(stack_view(stack@) =~= Seq::empty());
        (Reporter { state: State::Listing { stack, path } }, lines)
    } else {
        lines.push(Line::Total { total: 0 });
        (Reporter { state: State::Done { total: 0 } }, lines)
    }
}

/// Begins the walk of the subtree at `path` from what the caller found
/// when it tried to fetch the metadata of `path`.
pub fn traverse_path(path: String, stat: Result<Metadata, ScanError>) -> (started: (
    Reporter,
    Vec<Line>,
))
    ensures
        (started.0@, lines_view(started.1@)) == ReportView::open(path@, stat_view(stat)),
        started.0@.wf(),
        forall|disk: Disk|
            stat is Ok ==> #[trigger] disk.report(path@, stat->Ok_0) == disk.course(
                started.0@,
            ).after(lines_view(started.1@), 0),
{
    match stat {
        Ok(metadata) => traverse_from_metadata(path, metadata),
        Err(error) => {
            let lines: Vec<Line> = Vec::new();
            (Reporter { state: State::Failed { error } }, lines)
        },
    }
}

} // verus!
