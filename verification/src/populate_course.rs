//! What a population comes to: the tree that the builder produces when it
//! is run against a given file system, stated without the builder's
//! machinery, and the proof that the builder produces exactly that.

use vstd::prelude::*;
use crate::disk::Disk;
use crate::entry::{classify, forest_height, DirectoryView, FSEntryView, FileView};
use crate::error::{internal_error, ErrorKind, ScanErrorView};
use crate::populate::{NodeView, PopulationView};
use crate::walk::{ListedView, MAX_DEPTH};

verus! {

/// How a population, or a part of one, comes out.
pub struct Growth {
    /// The number of directory listings that it asks for.
    pub listings: nat,
    /// The populated directory, or the failure that stops it.
    pub outcome: Result<DirectoryView, ScanErrorView>,
}

impl Growth {
    /// The growth that asks for nothing and fails.
    pub open spec fn failed(error: ScanErrorView) -> Growth {
        Growth { listings: 0, outcome: Err(error) }
    }

    /// This growth, preceded by a part of the population that asked for
    /// `listings` listings.
    pub open spec fn after(self, listings: nat) -> Growth {
        Growth { listings: listings + self.listings, outcome: self.outcome }
    }
}

impl Disk {
    /// The directory at `path`, `depth` levels below the root of the
    /// population, with metadata size `size`, fully populated.
    pub open spec fn populate(self, depth: nat, path: Seq<char>, size: nat) -> Growth
        decreases MAX_DEPTH - depth, 1nat, 0nat,
    {
        match self.list(path) {
            Ok(children) => self.fill(depth, NodeView::enter(path, size, children)).after(1),
            Err(error) => Growth::failed(error).after(1),
        }
    }

    /// The directory of `node`, `depth` levels below the root of the
    /// population, once the children that are left have been added to it.
    ///
    /// Each child is classified. A file joins the directory's files. A
    /// symbolic link is dropped. A sub-directory is populated in full and
    /// joins the directory's sub-directories. The first failure ends the
    /// population: a listing that fails, a directory that lies too deep.
    pub open spec fn fill(self, depth: nat, node: NodeView) -> Growth
        decreases MAX_DEPTH - depth, 0nat, 2 * node.rest.len(),
    {
        if node.rest.len() > 0 {
            let entry = node.rest[0];
            let rest = node.rest.drop_first();
            match classify(entry.path, entry.metadata) {
                FSEntryView::File(file) => self.fill(depth, node.with_file(file, rest)),
                FSEntryView::SymLink(link) => self.fill(depth, NodeView { dir: node.dir, rest }),
                FSEntryView::Directory(dir) => {
                    if depth >= MAX_DEPTH {
                        Growth::failed(internal_error(ErrorKind::DeepRecursionLimit, entry.path))
                    } else {
                        self.adopt(
                            depth,
                            NodeView { dir: node.dir, rest },
                            self.populate(depth + 1, dir.path, dir.size),
                        )
                    }
                },
            }
        } else {
            Growth { listings: 0, outcome: Ok(node.dir) }
        }
    }

    /// The directory of `parent` once the population of one of its
    /// sub-directories has come out as `below`: a failure below is the
    /// failure of the whole; otherwise the sub-directory joins the parent
    /// and the parent's population goes on.
    pub open spec fn adopt(self, depth: nat, parent: NodeView, below: Growth) -> Growth
        decreases MAX_DEPTH - depth, 0nat, 2 * parent.rest.len() + 1,
    {
        match below.outcome {
            Ok(dir) => self.fill(depth, parent.with_dir(dir)).after(below.listings),
            Err(error) => below,
        }
    }

    /// The tree once the population of the directory below the
    /// directories of `stack` has come out as `below`: each directory of
    /// the stack adopts what lies below it, the innermost first.
    pub open spec fn raise(self, stack: Seq<NodeView>, below: Growth) -> Growth
        decreases stack.len(),
    {
        if stack.len() == 0 {
            below
        } else {
            self.raise(
                stack.drop_last(),
                self.adopt((stack.len() - 1) as nat, stack.last(), below),
            )
        }
    }

    /// What is still to come of a population that is in state `state`.
    pub open spec fn growth(self, state: PopulationView) -> Growth {
        match state {
            PopulationView::Listing { stack, path, size } => self.raise(
                stack,
                self.populate(stack.len(), path, size),
            ),
            PopulationView::Done { dir } => Growth { listings: 0, outcome: Ok(dir) },
            PopulationView::Failed { error } => Growth::failed(error),
        }
    }

    /// The population after at most `steps` listings, each answered as
    /// this file system answers.
    pub open spec fn build(self, state: PopulationView, steps: nat) -> PopulationView
        decreases steps,
    {
        if steps == 0 {
            state
        } else {
            match state {
                PopulationView::Listing { stack, path, size } => self.build(
                    state.step(self.list(path)),
                    (steps - 1) as nat,
                ),
                _ => state,
            }
        }
    }
}

/// Listings taken before the stack is raised are taken before the tree is
/// complete.
proof fn lemma_raise_after(disk: Disk, stack: Seq<NodeView>, below: Growth, listings: nat)
    ensures
        disk.raise(stack, below.after(listings)) == disk.raise(stack, below).after(listings),
    decreases stack.len(),
{
    if stack.len() > 0 {
        lemma_raise_after(
            disk,
            stack.drop_last(),
            disk.adopt((stack.len() - 1) as nat, stack.last(), below),
            listings,
        );
    }
}

/// A failure below passes through every directory above it unchanged.
proof fn lemma_raise_failed(disk: Disk, stack: Seq<NodeView>, below: Growth)
    requires
        below.outcome is Err,
    ensures
        disk.raise(stack, below) == below,
    decreases stack.len(),
{
    if stack.len() > 0 {
        lemma_raise_failed(disk, stack.drop_last(), below);
    }
}

/// Every directory that adopts can only add listings to those that the
/// population below it took.
proof fn lemma_raise_listings(disk: Disk, stack: Seq<NodeView>, below: Growth)
    ensures
        disk.raise(stack, below).listings >= below.listings,
    decreases stack.len(),
{
    if stack.len() > 0 {
        lemma_raise_listings(
            disk,
            stack.drop_last(),
            disk.adopt((stack.len() - 1) as nat, stack.last(), below),
        );
    }
}

/// Going on from inside a directory leaves what the population comes to
/// as it was.
proof fn lemma_settle_keeps_growth(disk: Disk, stack: Seq<NodeView>, node: NodeView)
    requires
        stack.len() <= MAX_DEPTH,
    ensures
        PopulationView::settle(stack, node).wf(),
        disk.growth(PopulationView::settle(stack, node)) == disk.raise(
            stack,
            disk.fill(stack.len(), node),
        ),
    decreases stack.len(), node.rest.len(),
{
    let depth = stack.len();
    if node.rest.len() > 0 {
        let entry = node.rest[0];
        let rest = node.rest.drop_first();
        match classify(entry.path, entry.metadata) {
            FSEntryView::File(file) => {
                lemma_settle_keeps_growth(disk, stack, node.with_file(file, rest));
            },
            FSEntryView::SymLink(link) => {
                lemma_settle_keeps_growth(disk, stack, NodeView { dir: node.dir, rest });
            },
            FSEntryView::Directory(dir) => {
                if depth >= MAX_DEPTH {
                    lemma_raise_failed(disk, stack, disk.fill(depth, node));
                } else {
                    let parent = NodeView { dir: node.dir, rest };
                    assert(stack.push(parent).drop_last() =~= stack);
                }
            },
        }
    } else if depth > 0 {
        lemma_settle_keeps_growth(disk, stack.drop_last(), stack.last().with_dir(node.dir));
    }
}

/// One step of a population, answered as the file system answers, takes
/// one listing and leaves what the population comes to as it was.
pub proof fn lemma_step_keeps_growth(disk: Disk, state: PopulationView)
    requires
        state.wf(),
        state is Listing,
    ensures
        ({
            let next = state.step(disk.list(state->path));
            &&& next.wf()
            &&& disk.growth(state) == disk.growth(next).after(1)
        }),
{
    let stack = state->stack;
    let path = state->path;
    let size = state->size;
    match disk.list(path) {
        Ok(children) => {
            let node = NodeView::enter(path, size, children);
            lemma_settle_keeps_growth(disk, stack, node);
            lemma_raise_after(disk, stack, disk.fill(stack.len(), node), 1);
        },
        Err(error) => {
            lemma_raise_failed(disk, stack, disk.populate(stack.len(), path, size));
        },
    }
}

/// However many steps a population is run for, what is still to come is
/// what the population came to at the outset, less the listings taken.
pub proof fn lemma_build_keeps_growth(disk: Disk, state: PopulationView, steps: nat)
    requires
        state.wf(),
    ensures
        ({
            let built = disk.build(state, steps);
            let left = disk.growth(built);
            &&& built.wf()
            &&& left.listings <= disk.growth(state).listings
            &&& disk.growth(state) == left.after(
                (disk.growth(state).listings - left.listings) as nat,
            )
            &&& disk.growth(state).listings - left.listings <= steps
            &&& built is Listing ==> disk.growth(state).listings - left.listings == steps
        }),
    decreases steps,
{
    if steps > 0 && state is Listing {
        let next = state.step(disk.list(state->path));
        lemma_step_keeps_growth(disk, state);
        lemma_build_keeps_growth(disk, next, (steps - 1) as nat);
    }
}

/// A population ends: run for as many steps as its growth counts
/// listings, it is over, with the tree or the failure of its growth.
pub proof fn lemma_build_ends(disk: Disk, state: PopulationView)
    requires
        state.wf(),
    ensures
        match disk.growth(state).outcome {
            Ok(dir) => disk.build(state, disk.growth(state).listings) == (PopulationView::Done {
                dir,
            }),
            Err(error) => disk.build(state, disk.growth(state).listings) == (
            PopulationView::Failed { error }),
        },
{
    let whole = disk.growth(state);
    let built = disk.build(state, whole.listings);
    lemma_build_keeps_growth(disk, state, whole.listings);
    if let PopulationView::Listing { stack, path, size } = built {
        lemma_raise_listings(disk, stack, disk.populate(stack.len(), path, size));
    }
}

/// A listing that fails ends the population at once, in whatever
/// directory it occurs: the population fails with the error of the
/// listing, and no number of further steps brings a tree about.
pub proof fn lemma_failed_listing_fails_the_population(
    disk: Disk,
    state: PopulationView,
    steps: nat,
)
    requires
        state is Listing,
        disk.list(state->path) is Err,
        steps > 0,
    ensures
        state.step(disk.list(state->path)) == (PopulationView::Failed {
            error: disk.list(state->path)->Err_0,
        }),
        disk.build(state, steps) == (PopulationView::Failed {
            error: disk.list(state->path)->Err_0,
        }),
        disk.growth(state).outcome == Err::<DirectoryView, ScanErrorView>(
            disk.list(state->path)->Err_0,
        ),
{
    let failed = PopulationView::Failed { error: disk.list(state->path)->Err_0 };
    assert(disk.build(failed, (steps - 1) as nat) == failed);
    lemma_raise_failed(
        disk,
        state->stack,
        disk.populate(state->stack.len(), state->path, state->size),
    );
}

/// Scanning again gives the same tree: two runs of a population against
/// the same file system that are both over, after however many steps
/// each, have ended in the same state.
pub proof fn lemma_population_is_repeatable(
    disk: Disk,
    state: PopulationView,
    first: nat,
    second: nat,
)
    requires
        state.wf(),
        !(disk.build(state, first) is Listing),
        !(disk.build(state, second) is Listing),
    ensures
        disk.build(state, first) == disk.build(state, second),
{
    lemma_build_keeps_growth(disk, state, first);
    lemma_build_keeps_growth(disk, state, second);
}

/// The files among `entries`, in listing order.
pub open spec fn files_among(entries: Seq<ListedView>) -> Seq<FileView>
    decreases entries.len(),
{
    if entries.len() == 0 {
        Seq::empty()
    } else {
        match classify(entries[0].path, entries[0].metadata) {
            FSEntryView::File(file) => seq![file] + files_among(entries.drop_first()),
            _ => files_among(entries.drop_first()),
        }
    }
}

/// The directories among `entries`, in listing order.
pub open spec fn dirs_among(entries: Seq<ListedView>) -> Seq<ListedView>
    decreases entries.len(),
{
    if entries.len() == 0 {
        Seq::empty()
    } else {
        match classify(entries[0].path, entries[0].metadata) {
            FSEntryView::Directory(dir) => seq![entries[0]] + dirs_among(entries.drop_first()),
            _ => dirs_among(entries.drop_first()),
        }
    }
}

/// A directory that has been filled holds what it held before and, after
/// that, exactly the children that were left: every file among them, in
/// listing order, and every directory among them, in listing order, each
/// fully populated. Symbolic links are not among its children.
pub proof fn lemma_fill_collects_children(disk: Disk, depth: nat, node: NodeView)
    ensures
        disk.fill(depth, node).outcome matches Ok(dir) ==> {
            let below = dirs_among(node.rest);
            &&& dir.path == node.dir.path
            &&& dir.size == node.dir.size
            &&& dir.files == node.dir.files + files_among(node.rest)
            &&& dir.dirs.len() == node.dir.dirs.len() + below.len()
            &&& dir.dirs.take(node.dir.dirs.len() as int) == node.dir.dirs
            &&& forall|i: int|
                0 <= i < below.len() ==> disk.populate(
                    depth + 1,
                    (#[trigger] below[i]).path,
                    below[i].metadata.len as nat,
                ).outcome == Ok::<DirectoryView, ScanErrorView>(
                    dir.dirs[node.dir.dirs.len() + i],
                )
        },
    decreases node.rest.len(),
{
    if node.rest.len() > 0 {
        let entry = node.rest[0];
        let rest = node.rest.drop_first();
        match classify(entry.path, entry.metadata) {
            FSEntryView::File(file) => {
                lemma_fill_collects_children(disk, depth, node.with_file(file, rest));
            },
            FSEntryView::SymLink(link) => {
                lemma_fill_collects_children(disk, depth, NodeView { dir: node.dir, rest });
            },
            FSEntryView::Directory(bare) => {
                if depth < MAX_DEPTH {
                    let parent = NodeView { dir: node.dir, rest };
                    let grown = disk.populate(depth + 1, bare.path, bare.size);
                    assert(disk.fill(depth, node) == disk.adopt(depth, parent, grown));
                    if let Ok(child) = grown.outcome {
                        lemma_fill_collects_children(disk, depth, parent.with_dir(child));
                        if let Ok(dir) = disk.fill(depth, node).outcome {
                            let held = node.dir.dirs.len() as int;
                            assert(dir.dirs[held] == dir.dirs.take(held + 1)[held]);
                        }
                    }
                }
            },
        }
    }
}

/// A populated directory has the path and the metadata size that it was
/// asked for, and holds exactly the immediate children that the listing
/// of its path yields: the files in listing order and the directories in
/// listing order, each fully populated. Symbolic links are left out.
pub proof fn lemma_populate_collects_children(disk: Disk, depth: nat, path: Seq<char>, size: nat)
    ensures
        disk.populate(depth, path, size).outcome matches Ok(dir) ==> {
            &&& disk.list(path) matches Ok(children)
            &&& dir.path == path
            &&& dir.size == size
            &&& dir.files == files_among(children)
            &&& dir.dirs.len() == dirs_among(children).len()
            &&& forall|i: int|
                0 <= i < dir.dirs.len() ==> disk.populate(
                    depth + 1,
                    dirs_among(children)[i].path,
                    dirs_among(children)[i].metadata.len as nat,
                ).outcome == Ok::<DirectoryView, ScanErrorView>(#[trigger] dir.dirs[i])
        },
{
    if let Ok(children) = disk.list(path) {
        lemma_fill_collects_children(disk, depth, NodeView::enter(path, size, children));
    }
}

/// Filling a directory that lies `depth` levels below the root never
/// makes the tree reach further down than the depth limit.
pub proof fn lemma_fill_keeps_height(disk: Disk, depth: nat, node: NodeView)
    requires
        depth <= MAX_DEPTH,
        depth + forest_height(node.dir.dirs) <= MAX_DEPTH,
    ensures
        disk.fill(depth, node).outcome matches Ok(dir) ==> depth + dir.height() <= MAX_DEPTH + 1,
    decreases MAX_DEPTH - depth, 0nat, 2 * node.rest.len(),
{
    if node.rest.len() > 0 {
        let entry = node.rest[0];
        let rest = node.rest.drop_first();
        match classify(entry.path, entry.metadata) {
            FSEntryView::File(file) => {
                lemma_fill_keeps_height(disk, depth, node.with_file(file, rest));
            },
            FSEntryView::SymLink(link) => {
                lemma_fill_keeps_height(disk, depth, NodeView { dir: node.dir, rest });
            },
            FSEntryView::Directory(bare) => {
                if depth < MAX_DEPTH {
                    let parent = NodeView { dir: node.dir, rest };
                    let grown = disk.populate(depth + 1, bare.path, bare.size);
                    assert(disk.fill(depth, node) == disk.adopt(depth, parent, grown));
                    lemma_populate_keeps_height(disk, depth + 1, bare.path, bare.size);
                    if let Ok(child) = grown.outcome {
                        let more = parent.with_dir(child);
                        assert(node.dir.dirs.push(child).drop_last() =~= node.dir.dirs);
                        lemma_fill_keeps_height(disk, depth, more);
                    }
                }
            },
        }
    }
}

/// A populated tree never reaches further down than the depth limit: the
/// tree of a directory `depth` levels below the root has at most
/// `MAX_DEPTH + 1 - depth` levels, so the tree of the root itself has at
/// most `MAX_DEPTH + 1`.
pub proof fn lemma_populate_keeps_height(disk: Disk, depth: nat, path: Seq<char>, size: nat)
    requires
        depth <= MAX_DEPTH,
    ensures
        disk.populate(depth, path, size).outcome matches Ok(dir) ==> depth + dir.height()
            <= MAX_DEPTH + 1,
    decreases MAX_DEPTH - depth, 1nat, 0nat,
{
    if let Ok(children) = disk.list(path) {
        lemma_fill_keeps_height(disk, depth, NodeView::enter(path, size, children));
    }
}

/// A directory that holds nothing but symbolic links is populated
/// without children, whatever lengths the links have.
pub proof fn lemma_only_links_no_children(disk: Disk, depth: nat, node: NodeView)
    requires
        forall|i: int|
            0 <= i < node.rest.len() ==> (#[trigger] node.rest[i]).metadata.is_symlink
                && !node.rest[i].metadata.is_dir,
    ensures
        disk.fill(depth, node) == (Growth { listings: 0, outcome: Ok(node.dir) }),
    decreases node.rest.len(),
{
    if node.rest.len() > 0 {
        let rest = node.rest.drop_first();
        assert forall|i: int| 0 <= i < rest.len() implies (#[trigger] rest[i]).metadata.is_symlink
            && !rest[i].metadata.is_dir by {
            assert(rest[i] == node.rest[i + 1]);
        }
        lemma_only_links_no_children(disk, depth, NodeView { dir: node.dir, rest });
    }
}

/// Run against a file system, the population of the directory at `path`
/// ends after as many listings as the populated tree takes, with that
/// tree or with the failure that prevents it.
pub proof fn lemma_population_yields_tree(disk: Disk, path: Seq<char>, size: nat)
    ensures
        ({
            let whole = disk.populate(0, path, size);
            let built = disk.build(PopulationView::start(path, size), whole.listings);
            match whole.outcome {
                Ok(dir) => built == (PopulationView::Done { dir }),
                Err(error) => built == (PopulationView::Failed { error }),
            }
        }),
{
    lemma_build_ends(disk, PopulationView::start(path, size));
}

} // verus!
