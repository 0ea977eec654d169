//! What a report comes to: the lines and the total that a walk produces
//! when it is run against a given file system, stated without the walk's
//! machinery, and the proof that the walk produces exactly that.

use vstd::prelude::*;
use crate::disk::Disk;
use crate::entry::Metadata;
use crate::error::{internal_error, ErrorKind, ScanErrorView};
use crate::report::{prepend, FrameView, LineView, ReportView};
use crate::walk::{ListedView, MAX_DEPTH};

verus! {

/// How a walk, or a part of one, comes out.
pub struct Ending {
    /// The lines that it emits, in order.
    pub lines: Seq<LineView>,
    /// The number of directory listings that it asks for.
    pub listings: nat,
    /// The byte count that it arrives at, or the failure that stops it.
    pub outcome: Result<nat, ScanErrorView>,
}

impl Ending {
    /// The ending that emits nothing, asks for nothing and fails.
    pub open spec fn failed(error: ScanErrorView) -> Ending {
        Ending { lines: Seq::empty(), listings: 0, outcome: Err(error) }
    }

    /// This ending, preceded by a part of the walk that emitted `lines`
    /// and asked for `listings` listings.
    pub open spec fn after(self, lines: Seq<LineView>, listings: nat) -> Ending {
        Ending {
            lines: lines + self.lines,
            listings: listings + self.listings,
            outcome: self.outcome,
        }
    }
}

impl Disk {
    /// The report of the directory at `path`, `depth` levels below the
    /// scan root, from the moment its listing is asked for: the lines of
    /// its children and its own summary, and the bytes under it.
    pub open spec fn enter(self, depth: nat, path: Seq<char>) -> Ending
        decreases MAX_DEPTH - depth, 1nat, 0nat,
    {
        match self.list(path) {
            Ok(children) => self.finish(depth, FrameView::enter(path, children)).after(
                Seq::empty(),
                1,
            ),
            Err(error) => Ending::failed(error).after(Seq::empty(), 1),
        }
    }

    /// The rest of the report of the directory of `frame`, `depth` levels
    /// below the scan root: the lines of the children that are left and
    /// the directory's summary, and the bytes under the directory.
    ///
    /// A file adds its size. A sub-directory adds the bytes under it. A
    /// child that is neither adds nothing. The first failure ends the
    /// report: a listing that fails, a directory that lies too deep, a
    /// sum that does not fit in 64 bits.
    pub open spec fn finish(self, depth: nat, frame: FrameView) -> Ending
        decreases MAX_DEPTH - depth, 0nat, 2 * frame.rest.len(),
    {
        if frame.rest.len() > 0 {
            let entry = frame.rest[0];
            let size = entry.metadata.len as nat;
            let rest = frame.rest.drop_first();
            if entry.metadata.is_file {
                if frame.total + size > u64::MAX {
                    Ending::failed(internal_error(ErrorKind::TotalOverflow, entry.path))
                } else {
                    self.finish(
                        depth,
                        FrameView {
                            path: frame.path,
                            rest,
                            local: frame.local + size,
                            total: frame.total + size,
                        },
                    ).after(seq![LineView::Entry { depth: depth + 1, path: entry.path, size }], 0)
                }
            } else if entry.metadata.is_dir {
                if depth >= MAX_DEPTH {
                    Ending::failed(internal_error(ErrorKind::DeepRecursionLimit, entry.path))
                } else {
                    let below = self.enter(depth + 1, entry.path).after(
                        seq![LineView::Announce { depth: depth + 1, path: entry.path }],
                        0,
                    );
                    self.resume(
                        depth,
                        FrameView { path: frame.path, rest, local: frame.local, total: frame.total },
                        below,
                    )
                }
            } else {
                self.finish(
                    depth,
                    FrameView { path: frame.path, rest, local: frame.local, total: frame.total },
                )
            }
        } else {
            Ending {
                lines: seq![
                    LineView::Summary { depth, path: frame.path, local: frame.local },
                ],
                listings: 0,
                outcome: Ok(frame.total),
            }
        }
    }

    /// The report of the directory of `parent` once the walk of one of its
    /// sub-directories has come out as `below`: a failure below is the
    /// failure of the whole; otherwise the bytes below are shown, added to
    /// the parent's total, and the parent's report goes on.
    pub open spec fn resume(self, depth: nat, parent: FrameView, below: Ending) -> Ending
        decreases MAX_DEPTH - depth, 0nat, 2 * parent.rest.len() + 1,
    {
        match below.outcome {
            Ok(total) => {
                let lines = below.lines.push(LineView::DirSum { total });
                if parent.total + total > u64::MAX {
                    Ending {
                        lines,
                        listings: below.listings,
                        outcome: Err(internal_error(ErrorKind::TotalOverflow, parent.path)),
                    }
                } else {
                    self.finish(
                        depth,
                        FrameView {
                            path: parent.path,
                            rest: parent.rest,
                            local: parent.local,
                            total: parent.total + total,
                        },
                    ).after(lines, below.listings)
                }
            },
            Err(error) => below,
        }
    }

    /// The end of the report: the total of the scan root, if the walk got
    /// that far.
    pub open spec fn conclude(below: Ending) -> Ending {
        match below.outcome {
            Ok(total) => Ending {
                lines: below.lines.push(LineView::Total { total }),
                listings: below.listings,
                outcome: below.outcome,
            },
            Err(error) => below,
        }
    }

    /// The rest of the report once the walk of the directory below the
    /// directories of `stack` has come out as `below`: each directory of
    /// the stack is resumed in turn, the innermost first.
    pub open spec fn unwind(self, stack: Seq<FrameView>, below: Ending) -> Ending
        decreases stack.len(),
    {
        if stack.len() == 0 {
            Self::conclude(below)
        } else {
            self.unwind(
                stack.drop_last(),
                self.resume((stack.len() - 1) as nat, stack.last(), below),
            )
        }
    }

    /// What is still to come of a walk that is in state `state`.
    pub open spec fn course(self, state: ReportView) -> Ending {
        match state {
            ReportView::Listing { stack, path } => self.unwind(
                stack,
                self.enter(stack.len(), path),
            ),
            ReportView::Done { total } => Ending {
                lines: Seq::empty(),
                listings: 0,
                outcome: Ok(total),
            },
            ReportView::Failed { error } => Ending::failed(error),
        }
    }

    /// The whole report of the subtree at `path`, whose metadata is
    /// `metadata`: a file is its size, a directory the bytes under it,
    /// anything else nothing.
    pub open spec fn report(self, path: Seq<char>, metadata: Metadata) -> Ending {
        let size = metadata.len as nat;
        if metadata.is_file {
            Ending {
                lines: seq![
                    LineView::Entry { depth: 0, path, size },
                    LineView::Total { total: size },
                ],
                listings: 0,
                outcome: Ok(size),
            }
        } else if metadata.is_dir {
            Self::conclude(self.enter(0, path))
        } else {
            Ending { lines: seq![LineView::Total { total: 0 }], listings: 0, outcome: Ok(0) }
        }
    }

    /// The walk after at most `steps` listings, each answered as this
    /// file system answers, and the lines emitted on the way.
    pub open spec fn run(self, state: ReportView, steps: nat) -> (ReportView, Seq<LineView>)
        decreases steps,
    {
        if steps == 0 {
            (state, Seq::empty())
        } else {
            match state {
                ReportView::Listing { stack, path } => {
                    let next = state.step(self.list(path));
                    prepend(next.1, self.run(next.0, (steps - 1) as nat))
                },
                _ => (state, Seq::empty()),
            }
        }
    }
}

/// Putting two parts of a walk in front of an ending, one after the
/// other, is putting both in front of it at once.
proof fn lemma_after_after(ending: Ending, a: Seq<LineView>, m: nat, b: Seq<LineView>, n: nat)
    ensures
        ending.after(a, m).after(b, n) == ending.after(b + a, n + m),
{
    assert(b + (a + ending.lines) =~= (b + a) + ending.lines);
}

/// What precedes the walk of a sub-directory precedes the rest of its
/// parent's report.
proof fn lemma_resume_after(
    disk: Disk,
    depth: nat,
    parent: FrameView,
    below: Ending,
    lines: Seq<LineView>,
    listings: nat,
)
    ensures
        disk.resume(depth, parent, below.after(lines, listings)) == disk.resume(
            depth,
            parent,
            below,
        ).after(lines, listings),
{
    if let Ok(total) = below.outcome {
        if parent.total + total <= u64::MAX {
            let rest = disk.finish(
                depth,
                FrameView {
                    path: parent.path,
                    rest: parent.rest,
                    local: parent.local,
                    total: parent.total + total,
                },
            );
            lemma_after_after(
                rest,
                below.lines.push(LineView::DirSum { total }),
                below.listings,
                lines,
                listings,
            );
        }
    }
}

/// What precedes the walk of a sub-directory precedes the rest of the
/// whole report.
proof fn lemma_unwind_after(
    disk: Disk,
    stack: Seq<FrameView>,
    below: Ending,
    lines: Seq<LineView>,
    listings: nat,
)
    ensures
        disk.unwind(stack, below.after(lines, listings)) == disk.unwind(stack, below).after(
            lines,
            listings,
        ),
    decreases stack.len(),
{
    if stack.len() > 0 {
        let depth = (stack.len() - 1) as nat;
        lemma_resume_after(disk, depth, stack.last(), below, lines, listings);
        lemma_unwind_after(
            disk,
            stack.drop_last(),
            disk.resume(depth, stack.last(), below),
            lines,
            listings,
        );
    }
}

/// Going on from inside a directory leaves what the walk comes to as it
/// was: the lines emitted at once, followed by what is still to come,
/// are the rest of the directory's report, unwound through the stack.
proof fn lemma_settle_keeps_course(disk: Disk, stack: Seq<FrameView>, frame: FrameView)
    requires
        stack.len() <= MAX_DEPTH,
    ensures
        ({
            let next = ReportView::settle(stack, frame);
            disk.course(next.0).after(next.1, 0) == disk.unwind(
                stack,
                disk.finish(stack.len(), frame),
            )
        }),
    decreases stack.len(), frame.rest.len(),
{
    let depth = stack.len();
    let whole = disk.finish(depth, frame);
    if frame.rest.len() > 0 {
        let entry = frame.rest[0];
        let size = entry.metadata.len as nat;
        let rest = frame.rest.drop_first();
        if entry.metadata.is_file {
            if frame.total + size > u64::MAX {
                lemma_unwind_failed(disk, stack, whole);
            } else {
                let counted = FrameView {
                    path: frame.path,
                    rest,
                    local: frame.local + size,
                    total: frame.total + size,
                };
                let line = seq![LineView::Entry { depth: depth + 1, path: entry.path, size }];
                let tail = ReportView::settle(stack, counted);
                lemma_settle_keeps_course(disk, stack, counted);
                lemma_unwind_after(disk, stack, disk.finish(depth, counted), line, 0);
                lemma_after_after(disk.course(tail.0), tail.1, 0, line, 0);
            }
        } else if entry.metadata.is_dir {
            if depth >= MAX_DEPTH {
                lemma_unwind_failed(disk, stack, whole);
            } else {
                let parent = FrameView {
                    path: frame.path,
                    rest,
                    local: frame.local,
                    total: frame.total,
                };
                let line = seq![LineView::Announce { depth: depth + 1, path: entry.path }];
                let below = disk.enter(depth + 1, entry.path);
                assert(stack.push(parent).drop_last() =~= stack);
                lemma_resume_after(disk, depth, parent, below, line, 0);
                lemma_unwind_after(disk, stack, disk.resume(depth, parent, below), line, 0);
            }
        } else {
            lemma_settle_keeps_course(
                disk,
                stack,
                FrameView { path: frame.path, rest, local: frame.local, total: frame.total },
            );
        }
    } else {
        let summary = LineView::Summary { depth, path: frame.path, local: frame.local };
        if depth == 0 {
            assert(seq![summary].push(LineView::Total { total: frame.total }) =~= seq![
                summary,
                LineView::Total { total: frame.total },
            ]);
        } else {
            let parent = stack.last();
            let dirsum = LineView::DirSum { total: frame.total };
            assert(seq![summary].push(dirsum) =~= seq![summary, dirsum]);
            if parent.total + frame.total > u64::MAX {
                lemma_unwind_failed(disk, stack.drop_last(), disk.resume(
                    (depth - 1) as nat,
                    parent,
                    whole,
                ));
            } else {
                let grown = FrameView {
                    path: parent.path,
                    rest: parent.rest,
                    local: parent.local,
                    total: parent.total + frame.total,
                };
                let tail = ReportView::settle(stack.drop_last(), grown);
                lemma_settle_keeps_course(disk, stack.drop_last(), grown);
                lemma_unwind_after(
                    disk,
                    stack.drop_last(),
                    disk.finish((depth - 1) as nat, grown),
                    seq![summary, dirsum],
                    0,
                );
                lemma_after_after(disk.course(tail.0), tail.1, 0, seq![summary, dirsum], 0);
            }
        }
    }
}

/// A failure below passes through every directory above it unchanged.
proof fn lemma_unwind_failed(disk: Disk, stack: Seq<FrameView>, below: Ending)
    requires
        below.outcome is Err,
    ensures
        disk.unwind(stack, below) == below,
    decreases stack.len(),
{
    if stack.len() > 0 {
        lemma_unwind_failed(disk, stack.drop_last(), below);
    }
}

/// Every directory that is resumed can only add listings to those that
/// the walk below it took.
proof fn lemma_unwind_listings(disk: Disk, stack: Seq<FrameView>, below: Ending)
    ensures
        disk.unwind(stack, below).listings >= below.listings,
    decreases stack.len(),
{
    if stack.len() > 0 {
        lemma_unwind_listings(
            disk,
            stack.drop_last(),
            disk.resume((stack.len() - 1) as nat, stack.last(), below),
        );
    }
}

/// One step of a walk, answered as the file system answers, takes one
/// listing and leaves what the walk comes to as it was: the lines of the
/// step, followed by what is still to come after it, are what was still
/// to come before it; so is the outcome.
pub proof fn lemma_step_keeps_course(disk: Disk, state: ReportView)
    requires
        state.wf(),
        state is Listing,
    ensures
        ({
            let next = state.step(disk.list(state->path));
            &&& next.0.wf()
            &&& disk.course(state) == disk.course(next.0).after(next.1, 1)
        }),
{
    let stack = state->stack;
    let path = state->path;
    match disk.list(path) {
        Ok(children) => {
            let frame = FrameView::enter(path, children);
            lemma_settle_keeps_course(disk, stack, frame);
            lemma_settle_wf(stack, frame);
            lemma_unwind_after(disk, stack, disk.finish(stack.len(), frame), Seq::empty(), 1);
        },
        Err(error) => {
            lemma_unwind_failed(disk, stack, disk.enter(stack.len(), path));
        },
    }
}

/// Going on from inside a directory keeps the walk well formed.
proof fn lemma_settle_wf(stack: Seq<FrameView>, frame: FrameView)
    requires
        stack.len() <= MAX_DEPTH,
        forall|i: int| 0 <= i < stack.len() ==> (#[trigger] stack[i]).wf(),
        frame.wf(),
    ensures
        ReportView::settle(stack, frame).0.wf(),
    decreases stack.len(), frame.rest.len(),
{
    if frame.rest.len() > 0 {
        let entry = frame.rest[0];
        let size = entry.metadata.len as nat;
        let rest = frame.rest.drop_first();
        if entry.metadata.is_file {
            if frame.total + size <= u64::MAX {
                lemma_settle_wf(
                    stack,
                    FrameView {
                        path: frame.path,
                        rest,
                        local: frame.local + size,
                        total: frame.total + size,
                    },
                );
            }
        } else if !entry.metadata.is_dir {
            lemma_settle_wf(
                stack,
                FrameView { path: frame.path, rest, local: frame.local, total: frame.total },
            );
        }
    } else if stack.len() > 0 {
        let parent = stack.last();
        if parent.total + frame.total <= u64::MAX {
            lemma_settle_wf(
                stack.drop_last(),
                FrameView {
                    path: parent.path,
                    rest: parent.rest,
                    local: parent.local,
                    total: parent.total + frame.total,
                },
            );
        }
    }
}

/// However many steps a walk is run for, the lines emitted so far,
/// followed by what is still to come, are what the walk came to at the
/// outset, and the listings taken so far are counted.
pub proof fn lemma_run_keeps_course(disk: Disk, state: ReportView, steps: nat)
    requires
        state.wf(),
    ensures
        ({
            let ran = disk.run(state, steps);
            let left = disk.course(ran.0);
            &&& ran.0.wf()
            &&& left.listings <= disk.course(state).listings
            &&& disk.course(state) == left.after(
                ran.1,
                (disk.course(state).listings - left.listings) as nat,
            )
            &&& disk.course(state).listings - left.listings <= steps
            &&& ran.0 is Listing ==> disk.course(state).listings - left.listings == steps
        }),
    decreases steps,
{
    if steps > 0 && state is Listing {
        let next = state.step(disk.list(state->path));
        let ran = disk.run(next.0, (steps - 1) as nat);
        let left = disk.course(ran.0);
        lemma_step_keeps_course(disk, state);
        lemma_run_keeps_course(disk, next.0, (steps - 1) as nat);
        lemma_after_after(
            left,
            ran.1,
            (disk.course(next.0).listings - left.listings) as nat,
            next.1,
            1,
        );
    }
}

/// A walk ends: run for as many steps as its course counts listings, it
/// is over, with the lines and the outcome of its course.
pub proof fn lemma_run_ends(disk: Disk, state: ReportView)
    requires
        state.wf(),
    ensures
        ({
            let whole = disk.course(state);
            let ran = disk.run(state, whole.listings);
            &&& ran.1 == whole.lines
            &&& match whole.outcome {
                Ok(total) => ran.0 == (ReportView::Done { total }),
                Err(error) => ran.0 == (ReportView::Failed { error }),
            }
        }),
{
    let whole = disk.course(state);
    let ran = disk.run(state, whole.listings);
    lemma_run_keeps_course(disk, state, whole.listings);
    if let ReportView::Listing { stack, path } = ran.0 {
        lemma_unwind_listings(disk, stack, disk.enter(stack.len(), path));
    }
}

/// A listing that fails ends the walk at once, in whatever directory it
/// occurs: the walk fails with the error of the listing, emits nothing
/// more, and no number of further steps brings a total about.
pub proof fn lemma_failed_listing_fails_the_walk(disk: Disk, state: ReportView, steps: nat)
    requires
        state is Listing,
        disk.list(state->path) is Err,
        steps > 0,
    ensures
        state.step(disk.list(state->path)) == (
            ReportView::Failed { error: disk.list(state->path)->Err_0 },
            Seq::<LineView>::empty(),
        ),
        disk.run(state, steps) == (
            ReportView::Failed { error: disk.list(state->path)->Err_0 },
            Seq::<LineView>::empty(),
        ),
        disk.course(state).outcome == Err::<nat, ScanErrorView>(disk.list(state->path)->Err_0),
{
    let failed = ReportView::Failed { error: disk.list(state->path)->Err_0 };
    assert(disk.run(failed, (steps - 1) as nat) == (failed, Seq::<LineView>::empty()));
    lemma_unwind_failed(disk, state->stack, disk.enter(state->stack.len(), state->path));
}

/// Scanning again gives the same report: two runs of a walk against the
/// same file system that are both over, after however many steps each,
/// have emitted the same lines and ended in the same state.
pub proof fn lemma_walk_is_repeatable(disk: Disk, state: ReportView, first: nat, second: nat)
    requires
        state.wf(),
        !(disk.run(state, first).0 is Listing),
        !(disk.run(state, second).0 is Listing),
    ensures
        disk.run(state, first) == disk.run(state, second),
{
    lemma_run_keeps_course(disk, state, first);
    lemma_run_keeps_course(disk, state, second);
}

/// A child that is neither a file nor a directory, such as a symbolic
/// link, adds nothing to a report, whatever length its metadata gives: no
/// line, no byte, no listing.
pub proof fn lemma_link_adds_nothing(disk: Disk, depth: nat, frame: FrameView)
    requires
        frame.rest.len() > 0,
        !frame.rest[0].metadata.is_file,
        !frame.rest[0].metadata.is_dir,
    ensures
        disk.finish(depth, frame) == disk.finish(
            depth,
            FrameView {
                path: frame.path,
                rest: frame.rest.drop_first(),
                local: frame.local,
                total: frame.total,
            },
        ),
{
}

/// A directory that holds nothing but such children has nothing under
/// it: its report is its own summary, with no bytes.
pub proof fn lemma_only_links_total_zero(disk: Disk, depth: nat, frame: FrameView)
    requires
        forall|i: int|
            0 <= i < frame.rest.len() ==> !(#[trigger] frame.rest[i]).metadata.is_file
                && !frame.rest[i].metadata.is_dir,
    ensures
        disk.finish(depth, frame) == (Ending {
            lines: seq![LineView::Summary { depth, path: frame.path, local: frame.local }],
            listings: 0,
            outcome: Ok(frame.total),
        }),
    decreases frame.rest.len(),
{
    if frame.rest.len() > 0 {
        let rest = frame.rest.drop_first();
        assert forall|i: int| 0 <= i < rest.len() implies !(#[trigger] rest[i]).metadata.is_file
            && !rest[i].metadata.is_dir by {
            assert(rest[i] == frame.rest[i + 1]);
        }
        lemma_only_links_total_zero(
            disk,
            depth,
            FrameView { path: frame.path, rest, local: frame.local, total: frame.total },
        );
    }
}

/// The report of an empty directory is the directory's own summary and a
/// total of 0.
pub proof fn lemma_empty_directory_report(disk: Disk, path: Seq<char>, metadata: Metadata)
    requires
        metadata.is_dir,
        !metadata.is_file,
        disk.list(path) == Ok::<Seq<ListedView>, ScanErrorView>(Seq::empty()),
    ensures
        disk.report(path, metadata) == (Ending {
            lines: seq![
                LineView::Summary { depth: 0, path, local: 0 },
                LineView::Total { total: 0 },
            ],
            listings: 1,
            outcome: Ok(0),
        }),
{
    let summary = seq![LineView::Summary { depth: 0, path, local: 0 }];
    assert(summary.push(LineView::Total { total: 0 }) =~= seq![
        LineView::Summary { depth: 0, path, local: 0 },
        LineView::Total { total: 0 },
    ]);
}

/// The report of a single file is the file's size, exactly, without any
/// listing.
pub proof fn lemma_single_file_report(disk: Disk, path: Seq<char>, metadata: Metadata)
    requires
        metadata.is_file,
    ensures
        disk.report(path, metadata).outcome == Ok::<nat, ScanErrorView>(metadata.len as nat),
        disk.report(path, metadata).listings == 0,
        ReportView::start(path, metadata).0 == (ReportView::Done { total: metadata.len as nat }),
{
}

/// The walk that `ReportView::start` begins comes to the report of the
/// subtree.
pub proof fn lemma_start_course(disk: Disk, path: Seq<char>, metadata: Metadata)
    ensures
        ({
            let started = ReportView::start(path, metadata);
            &&& started.0.wf()
            &&& disk.course(started.0).after(started.1, 0) == disk.report(path, metadata)
        }),
{
}

/// Run against a file system, the walk of a subtree ends after as many
/// listings as the subtree's report counts, has by then emitted the lines
/// of that report and no others, and ends with the report's total or with
/// the report's failure.
pub proof fn lemma_walk_yields_report(disk: Disk, path: Seq<char>, metadata: Metadata)
    ensures
        ({
            let whole = disk.report(path, metadata);
            let started = ReportView::start(path, metadata);
            let ran = disk.run(started.0, whole.listings);
            &&& started.1 + ran.1 == whole.lines
            &&& match whole.outcome {
                Ok(total) => ran.0 == (ReportView::Done { total }),
                Err(error) => ran.0 == (ReportView::Failed { error }),
            }
        }),
{
    let started = ReportView::start(path, metadata);
    lemma_run_ends(disk, started.0);
}

} // verus!
