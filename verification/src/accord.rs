//! The reporter and the builder agree: on a file system whose entries are
//! each of exactly one kind, the total that the reporter arrives at is the
//! aggregate size of the tree that the builder produces.

use vstd::prelude::*;
use crate::aggregate::{
    files_size, lemma_aggregate_counts_every_file, lemma_files_size_push, lemma_forest_size_push,
};
use crate::disk::{plain_listing, Disk};
use crate::entry::{classify, FSEntryView, Metadata};
use crate::error::{ErrorKind, ScanErrorView};
use crate::populate::NodeView;
use crate::populate_course::Growth;
use crate::report::{FrameView, LineView};
use crate::report_course::Ending;
use crate::walk::MAX_DEPTH;

verus! {

/// The reporter's frame and the builder's node stand at the same place in
/// the same directory: the same children are left, and the frame has
/// counted the bytes that the node has collected.
pub open spec fn abreast(frame: FrameView, node: NodeView) -> bool {
    &&& frame.path == node.dir.path
    &&& frame.rest == node.rest
    &&& frame.local == files_size(node.dir.files)
    &&& frame.total == node.dir.aggregate()
    &&& frame.total <= u64::MAX
}

/// The report comes out as the tree does: where no tree comes about there
/// is no total; where the tree's aggregate size fits in 64 bits it is
/// the total, found with the same listings; where it does not fit the
/// report fails for that reason.
pub open spec fn accords(ending: Ending, growth: Growth) -> bool {
    match growth.outcome {
        Ok(dir) => if dir.aggregate() <= u64::MAX {
            ending.outcome == Ok::<nat, ScanErrorView>(dir.aggregate())
                && ending.listings == growth.listings
        } else {
            ending.outcome matches Err(error) && error.kind == ErrorKind::TotalOverflow
        },
        Err(error) => ending.outcome is Err,
    }
}

/// Filling a directory never takes bytes away from it.
pub proof fn lemma_fill_only_grows(disk: Disk, depth: nat, node: NodeView)
    ensures
        disk.fill(depth, node).outcome matches Ok(dir) ==> dir.aggregate()
            >= node.dir.aggregate(),
    decreases MAX_DEPTH - depth, 0nat, 2 * node.rest.len(),
{
    if node.rest.len() > 0 {
        let entry = node.rest[0];
        let rest = node.rest.drop_first();
        match classify(entry.path, entry.metadata) {
            FSEntryView::File(file) => {
                lemma_files_size_push(node.dir.files, file);
                lemma_fill_only_grows(disk, depth, node.with_file(file, rest));
            },
            FSEntryView::SymLink(link) => {
                lemma_fill_only_grows(disk, depth, NodeView { dir: node.dir, rest });
            },
            FSEntryView::Directory(dir) => {
                if depth < MAX_DEPTH {
                    let parent = NodeView { dir: node.dir, rest };
                    let below = disk.populate(depth + 1, dir.path, dir.size);
                    assert(disk.fill(depth, node) == disk.adopt(depth, parent, below));
                    if let Ok(child) = below.outcome {
                        lemma_forest_size_push(node.dir.dirs, child);
                        lemma_fill_only_grows(disk, depth, parent.with_dir(child));
                    }
                }
            },
        }
    }
}

/// From the same place in the same directory, the rest of the report
/// comes out as the rest of the population does.
proof fn lemma_finish_accords_with_fill(disk: Disk, depth: nat, frame: FrameView, node: NodeView)
    requires
        disk.plain(),
        plain_listing(frame.rest),
        abreast(frame, node),
    ensures
        accords(disk.finish(depth, frame), disk.fill(depth, node)),
    decreases MAX_DEPTH - depth, 0nat, 2 * node.rest.len(),
{
    if frame.rest.len() > 0 {
        let entry = frame.rest[0];
        let size = entry.metadata.len as nat;
        let rest = frame.rest.drop_first();
        assert forall|i: int| 0 <= i < rest.len() implies (#[trigger] rest[i]).metadata.one_kind() by {
            assert(rest[i] == frame.rest[i + 1]);
        }
        match classify(entry.path, entry.metadata) {
            FSEntryView::File(file) => {
                let more = node.with_file(file, rest);
                lemma_files_size_push(node.dir.files, file);
                lemma_fill_only_grows(disk, depth, more);
                if frame.total + size <= u64::MAX {
                    lemma_finish_accords_with_fill(
                        disk,
                        depth,
                        FrameView {
                            path: frame.path,
                            rest,
                            local: frame.local + size,
                            total: frame.total + size,
                        },
                        more,
                    );
                }
            },
            FSEntryView::SymLink(link) => {
                lemma_finish_accords_with_fill(
                    disk,
                    depth,
                    FrameView { path: frame.path, rest, local: frame.local, total: frame.total },
                    NodeView { dir: node.dir, rest },
                );
            },
            FSEntryView::Directory(dir) => {
                if depth < MAX_DEPTH {
                    let parent = NodeView { dir: node.dir, rest };
                    let waiting = FrameView {
                        path: frame.path,
                        rest,
                        local: frame.local,
                        total: frame.total,
                    };
                    let grown = disk.populate(depth + 1, entry.path, size);
                    let below = disk.enter(depth + 1, entry.path).after(
                        seq![LineView::Announce { depth: depth + 1, path: entry.path }],
                        0,
                    );
                    assert(disk.fill(depth, node) == disk.adopt(depth, parent, grown));
                    assert(disk.finish(depth, frame) == disk.resume(depth, waiting, below));
                    lemma_enter_accords_with_populate(disk, depth + 1, entry.path, size);
                    if let Ok(child) = grown.outcome {
                        let more = parent.with_dir(child);
                        let total = child.aggregate();
                        lemma_forest_size_push(node.dir.dirs, child);
                        lemma_fill_only_grows(disk, depth, more);
                        if frame.total + total <= u64::MAX {
                            lemma_finish_accords_with_fill(
                                disk,
                                depth,
                                FrameView {
                                    path: frame.path,
                                    rest,
                                    local: frame.local,
                                    total: frame.total + total,
                                },
                                more,
                            );
                        }
                    }
                }
            },
        }
    }
}

/// From the moment its listing is asked for, the report of a directory
/// comes out as its population does.
pub proof fn lemma_enter_accords_with_populate(disk: Disk, depth: nat, path: Seq<char>, size: nat)
    requires
        disk.plain(),
    ensures
        accords(disk.enter(depth, path), disk.populate(depth, path, size)),
    decreases MAX_DEPTH - depth, 1nat, 0nat,
{
    if let Ok(children) = disk.list(path) {
        lemma_finish_accords_with_fill(
            disk,
            depth,
            FrameView::enter(path, children),
            NodeView::enter(path, size, children),
        );
    }
}

/// On a file system whose entries are each of exactly one kind, the
/// report of a directory comes out as its population does: the total of
/// the report is the aggregate size of the populated tree.
pub proof fn lemma_report_accords_with_tree(disk: Disk, path: Seq<char>, metadata: Metadata)
    requires
        disk.plain(),
        metadata.is_dir,
        metadata.one_kind(),
    ensures
        accords(disk.report(path, metadata), disk.populate(0, path, metadata.len as nat)),
{
    lemma_enter_accords_with_populate(disk, 0, path, metadata.len as nat);
}

/// On a file system whose entries are each of exactly one kind, the total
/// of a directory's report is the sum of the sizes of all the files that
/// can be reached from the directory, however deep they lie; symbolic
/// links are not among them.
pub proof fn lemma_report_counts_every_file(disk: Disk, path: Seq<char>, metadata: Metadata)
    requires
        disk.plain(),
        metadata.is_dir,
        metadata.one_kind(),
    ensures
        disk.report(path, metadata).outcome matches Ok(total) ==> disk.populate(
            0,
            path,
            metadata.len as nat,
        ).outcome matches Ok(dir) && total == files_size(dir.all_files()),
{
    lemma_report_accords_with_tree(disk, path, metadata);
    if let Ok(dir) = disk.populate(0, path, metadata.len as nat).outcome {
        lemma_aggregate_counts_every_file(dir);
    }
}

} // verus!
