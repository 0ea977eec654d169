//! The order in which a directory's children are listed does not affect
//! the bytes that are counted under it.

use vstd::prelude::*;
use vstd::seq_lib::{lemma_fold_right_permutation, to_multiset_contains};
use crate::disk::Disk;
use crate::entry::{classify, FSEntryView, Metadata};
use crate::populate::NodeView;
use crate::report::FrameView;
use crate::walk::{ListedView, MAX_DEPTH};
use crate::weigh::{lemma_fill_weighs, lemma_finish_weighs};

verus! {

impl Disk {
    /// The two file systems answer alike but for the order of the
    /// children: where one fails the other fails in the same way, and
    /// where one lists children the other lists the same children, each
    /// as often.
    pub open spec fn same_up_to_order(self, other: Disk) -> bool {
        forall|path: Seq<char>|
            match (#[trigger] self.list(path), other.list(path)) {
                (Ok(here), Ok(there)) => here.to_multiset() == there.to_multiset(),
                (Err(here), Err(there)) => here == there,
                _ => false,
            }
    }
}

/// Two file systems that answer alike but for the order of the children
/// populate a directory alike: either both fail, or both produce a tree,
/// and the two trees have the same aggregate size.
pub proof fn lemma_populate_ignores_order(
    first: Disk,
    second: Disk,
    depth: nat,
    path: Seq<char>,
    size: nat,
)
    requires
        first.same_up_to_order(second),
    ensures
        match (
            first.populate(depth, path, size).outcome,
            second.populate(depth, path, size).outcome,
        ) {
            (Ok(here), Ok(there)) => here.aggregate() == there.aggregate(),
            (Err(here), Err(there)) => true,
            _ => false,
        },
    decreases MAX_DEPTH - depth,
{
    if let (Ok(here), Ok(there)) = (first.list(path), second.list(path)) {
        assert forall|entry: ListedView|
            first.bytes(depth, entry) == second.bytes(depth, entry) && first.enterable(
                depth,
                entry,
            ) == second.enterable(depth, entry) by {
            if let FSEntryView::Directory(dir) = classify(entry.path, entry.metadata) {
                if depth < MAX_DEPTH {
                    lemma_populate_ignores_order(first, second, depth + 1, dir.path, dir.size);
                }
            }
        }
        let plus = |entry: ListedView, sum: nat| first.bytes(depth, entry) + sum;
        let other = |entry: ListedView, sum: nat| second.bytes(depth, entry) + sum;
        assert(plus =~= other);
        here.lemma_fold_right_alt(plus, 0nat);
        there.lemma_fold_right_alt(plus, 0nat);
        lemma_fold_right_permutation(here, there, plus, 0nat);
        assert(first.thrives(depth, here) == second.thrives(depth, there)) by {
            if first.thrives(depth, here) {
                assert forall|i: int| 0 <= i < there.len() implies second.enterable(
                    depth,
                    #[trigger] there[i],
                ) by {
                    to_multiset_contains(there, there[i]);
                    to_multiset_contains(here, there[i]);
                }
            }
            if second.thrives(depth, there) {
                assert forall|i: int| 0 <= i < here.len() implies first.enterable(
                    depth,
                    #[trigger] here[i],
                ) by {
                    to_multiset_contains(here, here[i]);
                    to_multiset_contains(there, here[i]);
                }
            }
        }
        lemma_fill_weighs(first, depth, NodeView::enter(path, size, here));
        lemma_fill_weighs(second, depth, NodeView::enter(path, size, there));
    }
}

/// Two file systems that answer alike but for the order of the children
/// report a directory alike: either both fail, or both come to a total,
/// and it is the same total.
pub proof fn lemma_enter_ignores_order(first: Disk, second: Disk, depth: nat, path: Seq<char>)
    requires
        first.same_up_to_order(second),
    ensures
        match (first.enter(depth, path).outcome, second.enter(depth, path).outcome) {
            (Ok(here), Ok(there)) => here == there,
            (Err(here), Err(there)) => true,
            _ => false,
        },
    decreases MAX_DEPTH - depth,
{
    if let (Ok(here), Ok(there)) = (first.list(path), second.list(path)) {
        assert forall|entry: ListedView|
            first.reported_bytes(depth, entry) == second.reported_bytes(depth, entry)
                && first.passable(depth, entry) == second.passable(depth, entry) by {
            if depth < MAX_DEPTH {
                lemma_enter_ignores_order(first, second, depth + 1, entry.path);
            }
        }
        let plus = |entry: ListedView, sum: nat| first.reported_bytes(depth, entry) + sum;
        let other = |entry: ListedView, sum: nat| second.reported_bytes(depth, entry) + sum;
        assert(plus =~= other);
        here.lemma_fold_right_alt(plus, 0nat);
        there.lemma_fold_right_alt(plus, 0nat);
        lemma_fold_right_permutation(here, there, plus, 0nat);
        assert(first.passes(depth, here) == second.passes(depth, there)) by {
            if first.passes(depth, here) {
                assert forall|i: int| 0 <= i < there.len() implies second.passable(
                    depth,
                    #[trigger] there[i],
                ) by {
                    to_multiset_contains(there, there[i]);
                    to_multiset_contains(here, there[i]);
                }
            }
            if second.passes(depth, there) {
                assert forall|i: int| 0 <= i < here.len() implies first.passable(
                    depth,
                    #[trigger] here[i],
                ) by {
                    to_multiset_contains(here, here[i]);
                    to_multiset_contains(there, here[i]);
                }
            }
        }
        lemma_finish_weighs(first, depth, FrameView::enter(path, here));
        lemma_finish_weighs(second, depth, FrameView::enter(path, there));
    }
}

/// The order in which children are listed does not affect the total of a
/// report: two file systems that answer alike but for that order either
/// both fail to report a subtree or both arrive at the same total.
pub proof fn lemma_report_ignores_order(
    first: Disk,
    second: Disk,
    path: Seq<char>,
    metadata: Metadata,
)
    requires
        first.same_up_to_order(second),
    ensures
        match (first.report(path, metadata).outcome, second.report(path, metadata).outcome) {
            (Ok(here), Ok(there)) => here == there,
            (Err(here), Err(there)) => true,
            _ => false,
        },
{
    lemma_enter_ignores_order(first, second, 0, path);
}

} // verus!
