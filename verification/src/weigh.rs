//! What each child adds: the bytes under a directory as the sum of what
//! its children add, for the builder and for the reporter.

use vstd::prelude::*;
use crate::aggregate::{lemma_files_size_push, lemma_forest_size_push};
use crate::disk::Disk;
use crate::entry::{classify, FSEntryView};
use crate::populate::NodeView;
use crate::report::{FrameView, LineView};
use crate::walk::{ListedView, MAX_DEPTH};

verus! {

impl Disk {
    /// The bytes that the child `entry` of a directory `depth` levels
    /// below the root adds to that directory when it is populated: the
    /// size of a file, the aggregate size of a sub-directory, nothing for
    /// a symbolic link.
    pub open spec fn bytes(self, depth: nat, entry: ListedView) -> nat {
        match classify(entry.path, entry.metadata) {
            FSEntryView::File(file) => file.size,
            FSEntryView::SymLink(link) => 0,
            FSEntryView::Directory(dir) => if depth < MAX_DEPTH {
                match self.populate(depth + 1, dir.path, dir.size).outcome {
                    Ok(child) => child.aggregate(),
                    Err(error) => 0,
                }
            } else {
                0
            },
        }
    }

    /// The bytes that the children `entries` add together.
    pub open spec fn weight(self, depth: nat, entries: Seq<ListedView>) -> nat {
        entries.fold_right_alt(|entry: ListedView, sum: nat| self.bytes(depth, entry) + sum, 0nat)
    }

    /// The child `entry` of a directory `depth` levels below the root does
    /// not stop the population: if it is a directory, it does not lie too
    /// deep and can be populated.
    pub open spec fn enterable(self, depth: nat, entry: ListedView) -> bool {
        classify(entry.path, entry.metadata) matches FSEntryView::Directory(dir) ==> depth
            < MAX_DEPTH && self.populate(depth + 1, dir.path, dir.size).outcome is Ok
    }

    /// None of the children `entries` stops the population.
    pub open spec fn thrives(self, depth: nat, entries: Seq<ListedView>) -> bool {
        forall|i: int| 0 <= i < entries.len() ==> self.enterable(depth, #[trigger] entries[i])
    }
}

/// A directory can be filled exactly if none of the children that are
/// left stops the population, and then its aggregate size is what it held
/// before plus what those children add.
pub proof fn lemma_fill_weighs(disk: Disk, depth: nat, node: NodeView)
    ensures
        disk.fill(depth, node).outcome is Ok <==> disk.thrives(depth, node.rest),
        disk.fill(depth, node).outcome matches Ok(dir) ==> dir.aggregate()
            == node.dir.aggregate() + disk.weight(depth, node.rest),
    decreases node.rest.len(),
{
    if node.rest.len() > 0 {
        let entry = node.rest[0];
        let rest = node.rest.drop_first();
        assert(disk.thrives(depth, node.rest) <==> disk.enterable(depth, entry) && disk.thrives(
            depth,
            rest,
        )) by {
            if disk.thrives(depth, node.rest) {
                assert forall|i: int| 0 <= i < rest.len() implies disk.enterable(
                    depth,
                    #[trigger] rest[i],
                ) by {
                    assert(rest[i] == node.rest[i + 1]);
                }
            }
            if disk.enterable(depth, entry) && disk.thrives(depth, rest) {
                assert forall|i: int| 0 <= i < node.rest.len() implies disk.enterable(
                    depth,
                    #[trigger] node.rest[i],
                ) by {
                    if i > 0 {
                        assert(node.rest[i] == rest[i - 1]);
                    }
                }
            }
        }
        match classify(entry.path, entry.metadata) {
            FSEntryView::File(file) => {
                lemma_files_size_push(node.dir.files, file);
                lemma_fill_weighs(disk, depth, node.with_file(file, rest));
            },
            FSEntryView::SymLink(link) => {
                lemma_fill_weighs(disk, depth, NodeView { dir: node.dir, rest });
            },
            FSEntryView::Directory(dir) => {
                if depth < MAX_DEPTH {
                    let parent = NodeView { dir: node.dir, rest };
                    let below = disk.populate(depth + 1, dir.path, dir.size);
                    assert(disk.fill(depth, node) == disk.adopt(depth, parent, below));
                    if let Ok(child) = below.outcome {
                        lemma_forest_size_push(node.dir.dirs, child);
                        lemma_fill_weighs(disk, depth, parent.with_dir(child));
                    }
                }
            },
        }
    }
}

impl Disk {
    /// The bytes that the child `entry` of a directory `depth` levels
    /// below the scan root adds to the report of that directory: the size
    /// of a file, the bytes under a sub-directory, nothing for anything
    /// else.
    pub open spec fn reported_bytes(self, depth: nat, entry: ListedView) -> nat {
        if entry.metadata.is_file {
            entry.metadata.len as nat
        } else if entry.metadata.is_dir && depth < MAX_DEPTH {
            match self.enter(depth + 1, entry.path).outcome {
                Ok(total) => total,
                Err(error) => 0,
            }
        } else {
            0
        }
    }

    /// The bytes that the children `entries` add to a report together.
    pub open spec fn reported_weight(self, depth: nat, entries: Seq<ListedView>) -> nat {
        entries.fold_right_alt(
            |entry: ListedView, sum: nat| self.reported_bytes(depth, entry) + sum,
            0nat,
        )
    }

    /// The child `entry` of a directory `depth` levels below the scan root
    /// does not stop the report: if it is a directory, it does not lie too
    /// deep and its own report comes to a total.
    pub open spec fn passable(self, depth: nat, entry: ListedView) -> bool {
        !entry.metadata.is_file && entry.metadata.is_dir ==> depth < MAX_DEPTH && self.enter(
            depth + 1,
            entry.path,
        ).outcome is Ok
    }

    /// None of the children `entries` stops the report.
    pub open spec fn passes(self, depth: nat, entries: Seq<ListedView>) -> bool {
        forall|i: int| 0 <= i < entries.len() ==> self.passable(depth, #[trigger] entries[i])
    }
}

/// The report of a directory comes to a total exactly if none of the
/// children that are left stops it and the bytes fit in 64 bits, and then
/// the total is what was counted before plus what those children add: the
/// size of every file and the bytes under every sub-directory.
pub proof fn lemma_finish_weighs(disk: Disk, depth: nat, frame: FrameView)
    requires
        frame.total <= u64::MAX,
    ensures
        disk.finish(depth, frame).outcome is Ok <==> disk.passes(depth, frame.rest) && frame.total
            + disk.reported_weight(depth, frame.rest) <= u64::MAX,
        disk.finish(depth, frame).outcome matches Ok(total) ==> total == frame.total
            + disk.reported_weight(depth, frame.rest),
    decreases frame.rest.len(),
{
    if frame.rest.len() > 0 {
        let entry = frame.rest[0];
        let size = entry.metadata.len as nat;
        let rest = frame.rest.drop_first();
        assert(disk.passes(depth, frame.rest) <==> disk.passable(depth, entry) && disk.passes(
            depth,
            rest,
        )) by {
            if disk.passes(depth, frame.rest) {
                assert forall|i: int| 0 <= i < rest.len() implies disk.passable(
                    depth,
                    #[trigger] rest[i],
                ) by {
                    assert(rest[i] == frame.rest[i + 1]);
                }
            }
            if disk.passable(depth, entry) && disk.passes(depth, rest) {
                assert forall|i: int| 0 <= i < frame.rest.len() implies disk.passable(
                    depth,
                    #[trigger] frame.rest[i],
                ) by {
                    if i > 0 {
                        assert(frame.rest[i] == rest[i - 1]);
                    }
                }
            }
        }
        if entry.metadata.is_file {
            if frame.total + size <= u64::MAX {
                lemma_finish_weighs(
                    disk,
                    depth,
                    FrameView {
                        path: frame.path,
                        rest,
                        local: frame.local + size,
                        total: frame.total + size,
                    },
                );
            }
        } else if entry.metadata.is_dir {
            if depth < MAX_DEPTH {
                let waiting = FrameView {
                    path: frame.path,
                    rest,
                    local: frame.local,
                    total: frame.total,
                };
                let below = disk.enter(depth + 1, entry.path).after(
                    seq![LineView::Announce { depth: depth + 1, path: entry.path }],
                    0,
                );
                assert(disk.finish(depth, frame) == disk.resume(depth, waiting, below));
                if let Ok(total) = below.outcome {
                    if frame.total + total <= u64::MAX {
                        lemma_finish_weighs(
                            disk,
                            depth,
                            FrameView {
                                path: frame.path,
                                rest,
                                local: frame.local,
                                total: frame.total + total,
                            },
                        );
                    }
                }
            }
        } else {
            lemma_finish_weighs(
                disk,
                depth,
                FrameView { path: frame.path, rest, local: frame.local, total: frame.total },
            );
        }
    }
}

/// The report of a directory, from the moment its listing is asked for,
/// comes to a total only if the listing succeeds, and the total is then
/// what the listed children add: the size of every file and the bytes
/// under every sub-directory.
pub proof fn lemma_enter_weighs(disk: Disk, depth: nat, path: Seq<char>)
    ensures
        disk.enter(depth, path).outcome matches Ok(total) ==> disk.list(path) matches Ok(children)
            && disk.passes(depth, children) && total == disk.reported_weight(depth, children),
{
    if let Ok(children) = disk.list(path) {
        lemma_finish_weighs(disk, depth, FrameView::enter(path, children));
    }
}

/// A directory is populated only if its listing succeeds, and the
/// aggregate size of the tree is then what the listed children add: the
/// size of every file and the aggregate size of every sub-directory.
pub proof fn lemma_populate_weighs(disk: Disk, depth: nat, path: Seq<char>, size: nat)
    ensures
        disk.populate(depth, path, size).outcome matches Ok(dir) ==> disk.list(path) matches Ok(
            children,
        ) && disk.thrives(depth, children) && dir.aggregate() == disk.weight(depth, children),
{
    if let Ok(children) = disk.list(path) {
        lemma_fill_weighs(disk, depth, NodeView::enter(path, size, children));
    }
}

/// The bytes of the files among `entries`: what lies directly in a
/// directory, without what lies in its sub-directories.
pub open spec fn direct_bytes(entries: Seq<ListedView>) -> nat {
    entries.fold_right_alt(
        |entry: ListedView, sum: nat|
            if entry.metadata.is_file {
                entry.metadata.len as nat + sum
            } else {
                sum
            },
        0nat,
    )
}

/// A report that comes to a total ends with the summary of its directory,
/// and the local bytes that the summary shows are those of the files
/// that lie directly in the directory: the bytes under sub-directories
/// are not among them.
pub proof fn lemma_summary_counts_direct_files(disk: Disk, depth: nat, frame: FrameView)
    ensures
        disk.finish(depth, frame).outcome is Ok ==> disk.finish(depth, frame).lines.len() > 0
            && disk.finish(depth, frame).lines.last() == (LineView::Summary {
            depth,
            path: frame.path,
            local: frame.local + direct_bytes(frame.rest),
        }),
    decreases frame.rest.len(),
{
    if frame.rest.len() > 0 {
        let entry = frame.rest[0];
        let size = entry.metadata.len as nat;
        let rest = frame.rest.drop_first();
        if entry.metadata.is_file {
            if frame.total + size <= u64::MAX {
                lemma_summary_counts_direct_files(
                    disk,
                    depth,
                    FrameView {
                        path: frame.path,
                        rest,
                        local: frame.local + size,
                        total: frame.total + size,
                    },
                );
            }
        } else if entry.metadata.is_dir {
            if depth < MAX_DEPTH {
                let waiting = FrameView {
                    path: frame.path,
                    rest,
                    local: frame.local,
                    total: frame.total,
                };
                let below = disk.enter(depth + 1, entry.path).after(
                    seq![LineView::Announce { depth: depth + 1, path: entry.path }],
                    0,
                );
                assert(disk.finish(depth, frame) == disk.resume(depth, waiting, below));
                if let Ok(total) = below.outcome {
                    if frame.total + total <= u64::MAX {
                        lemma_summary_counts_direct_files(
                            disk,
                            depth,
                            FrameView {
                                path: frame.path,
                                rest,
                                local: frame.local,
                                total: frame.total + total,
                            },
                        );
                    }
                }
            }
        } else {
            lemma_summary_counts_direct_files(
                disk,
                depth,
                FrameView { path: frame.path, rest, local: frame.local, total: frame.total },
            );
        }
    }
}

} // verus!
