//! The tree builder: fills a directory with its files and its fully
//! populated sub-directories.
//!
//! Like the reporter, the builder reads nothing itself. It names the
//! directory whose listing it needs next and is driven by
//! `Population::step`.

use vstd::prelude::*;
use crate::disk::Disk;
use crate::entry::{classify, Directory, DirectoryView, FSEntry, FSEntryView, File, FileView};
use crate::error::{internal_error, ErrorKind, ScanError, ScanErrorView};
use crate::populate_course::lemma_step_keeps_growth;
use crate::walk::{listing_view, reply_view, Listed, ListedView, MAX_DEPTH};

verus! {

/// A directory that the builder has entered and not yet left.
pub struct NodeView {
    /// The directory with the children collected so far.
    pub dir: DirectoryView,
    /// The children that have not been handled yet, in listing order.
    pub rest: Seq<ListedView>,
}

impl NodeView {
    /// The node of a directory whose listing has just arrived.
    pub open spec fn enter(path: Seq<char>, size: nat, listing: Seq<ListedView>) -> NodeView {
        NodeView { dir: DirectoryView::bare(path, size), rest: listing }
    }

    /// The node after `file` has been found directly in it.
    pub open spec fn with_file(self, file: FileView, rest: Seq<ListedView>) -> NodeView {
        NodeView { dir: DirectoryView { files: self.dir.files.push(file), ..self.dir }, rest }
    }

    /// The node after the populated sub-directory `dir` has been left.
    pub open spec fn with_dir(self, dir: DirectoryView) -> NodeView {
        NodeView { dir: DirectoryView { dirs: self.dir.dirs.push(dir), ..self.dir }, rest: self.rest }
    }
}

/// The state of a population.
pub enum PopulationView {
    /// The builder waits for the listing of the directory at `path`, whose
    /// metadata size is `size`; `stack` holds the directories above it,
    /// the root first.
    Listing { stack: Seq<NodeView>, path: Seq<char>, size: nat },
    /// The tree is complete.
    Done { dir: DirectoryView },
    /// The population was abandoned. There is no tree.
    Failed { error: ScanErrorView },
}

impl PopulationView {
    /// The state can be reached: no more directories are open than the
    /// depth limit allows.
    pub open spec fn wf(self) -> bool {
        match self {
            PopulationView::Listing { stack, path, size } => stack.len() <= MAX_DEPTH,
            _ => true,
        }
    }

    /// The population of the directory at `path` before any listing.
    pub open spec fn start(path: Seq<char>, size: nat) -> PopulationView {
        PopulationView::Listing { stack: Seq::empty(), path, size }
    }

    /// The builder goes on from inside the directory of `node`, below the
    /// directories of `stack`, until it needs another listing or ends.
    ///
    /// Children are classified in listing order. A file is appended to the
    /// directory's files. A symbolic link is dropped. For a sub-directory
    /// the builder asks for its listing, unless it lies too deep. When no
    /// child is left the directory is appended to its parent's
    /// sub-directories; at the root the tree is complete.
    pub open spec fn settle(stack: Seq<NodeView>, node: NodeView) -> PopulationView
        decreases stack.len(), node.rest.len(),
    {
        if node.rest.len() > 0 {
            let entry = node.rest[0];
            let rest = node.rest.drop_first();
            match classify(entry.path, entry.metadata) {
                FSEntryView::File(file) => Self::settle(stack, node.with_file(file, rest)),
                FSEntryView::SymLink(link) => Self::settle(
                    stack,
                    NodeView { dir: node.dir, rest },
                ),
                FSEntryView::Directory(dir) => {
                    if stack.len() >= MAX_DEPTH {
                        PopulationView::Failed {
                            error: internal_error(ErrorKind::DeepRecursionLimit, entry.path),
                        }
                    } else {
                        PopulationView::Listing {
                            stack: stack.push(NodeView { dir: node.dir, rest }),
                            path: dir.path,
                            size: dir.size,
                        }
                    }
                },
            }
        } else if stack.len() == 0 {
            PopulationView::Done { dir: node.dir }
        } else {
            Self::settle(stack.drop_last(), stack.last().with_dir(node.dir))
        }
    }

    /// The population after the caller has answered the pending request
    /// with `listing`. A failure abandons the population. A population
    /// that is over stays as it is.
    pub open spec fn step(self, listing: Result<Seq<ListedView>, ScanErrorView>) -> PopulationView {
        match self {
            PopulationView::Listing { stack, path, size } => match listing {
                Ok(entries) => Self::settle(stack, NodeView::enter(path, size, entries)),
                Err(error) => PopulationView::Failed { error },
            },
            _ => self,
        }
    }
}

struct Node {
    dir: Directory,
    entries: Vec<Listed>,
    cursor: usize,
}

impl Node {
    spec fn view(&self) -> NodeView {
        NodeView { dir: self.dir@, rest: listing_view(self.entries@).skip(self.cursor as int) }
    }

    spec fn ok(&self) -> bool {
        self.cursor <= self.entries.len()
    }
}

spec fn stack_view(stack: Seq<Node>) -> Seq<NodeView> {
    Seq::new(stack.len(), |i: int| stack[i].view())
}

spec fn stack_ok(stack: Seq<Node>) -> bool {
    &&& stack.len() <= MAX_DEPTH
    &&& forall|i: int| 0 <= i < stack.len() ==> (#[trigger] stack[i]).ok()
}

enum State {
    Listing { stack: Vec<Node>, path: String, size: u64 },
    Done { dir: Directory },
    Failed { error: ScanError },
}

/// A population in progress. It is made by `Directory::populate` and
/// driven by `step`.
pub struct Population {
    state: State,
}

impl View for Population {
    type V = PopulationView;

    closed spec fn view(&self) -> PopulationView {
        match self.state {
            State::Listing { stack, path, size } => PopulationView::Listing {
                stack: stack_view(stack@),
                path: path@,
                size: size as nat,
            },
            State::Done { dir } => PopulationView::Done { dir: dir@ },
            State::Failed { error } => PopulationView::Failed { error: error@ },
        }
    }
}

impl Directory {
    /// Begins to fill a new directory with the path and metadata size of
    /// this one. The children that this one holds play no part.
    ///
    /// On whatever file system the population is run, it comes to the
    /// fully populated directory there.
    pub fn populate(&self) -> (walk: Population)
        ensures
            walk@ == PopulationView::start(self@.path, self@.size),
            walk@.wf(),
            forall|disk: Disk| #[trigger]
                disk.growth(walk@) == disk.populate(0, self@.path, self@.size),
    {
        let stack: Vec<Node> = Vec::new();
        assert(stack_view(stack@) =~= Seq::empty());
        Population { state: State::Listing { stack, path: self.path.clone(), size: self.size } }
    }

    /// This directory with `file` appended to its files.
    fn with_file(self, file: File) -> (dir: Directory)
        ensures
            dir@ == (DirectoryView { files: self@.files.push(file@), ..self@ }),
    {
        let Directory { path, size, dirs, mut files } = self;
        files.push(file);
        let dir = Directory { path, size, dirs, files };
        assert(dir@.files =~= self@.files.push(file@));
        dir
    }

    /// This directory with `child` appended to its sub-directories.
    fn with_dir(self, child: Directory) -> (dir: Directory)
        ensures
            dir@ == (DirectoryView { dirs: self@.dirs.push(child@), ..self@ }),
    {
        let Directory { path, size, mut dirs, files } = self;
        dirs.push(child);
        let dir = Directory { path, size, dirs, files };
        assert(dir@.dirs =~= self@.dirs.push(child@));
        dir
    }
}

impl Population {
    #[verifier::type_invariant]
    spec fn inv(self) -> bool {
        match self.state {
            State::Listing { stack, path, size } => stack_ok(stack@),
            _ => true,
        }
    }

    /// The directory whose listing the builder waits for; `None` once the
    /// population is over.
    pub fn pending(&self) -> (path: Option<&String>)
        ensures
            self@.wf(),
            match self@ {
                PopulationView::Listing { stack, path: wanted, size } => path.is_some()
                    && path.unwrap()@ == wanted,
                _ => path.is_none(),
            },
    {
        proof {
            use_type_invariant(self);
        }
        match &self.state {
            State::Listing { stack, path, size } => Some(path),
            _ => None,
        }
    }

    /// How the population ended: the populated directory, or the failure;
    /// `None` if it has not ended.
    pub fn finish(self) -> (outcome: Option<Result<Directory, ScanError>>)
        ensures
            match self@ {
                PopulationView::Listing { stack, path, size } => outcome.is_none(),
                PopulationView::Done { dir } => outcome.is_some() && outcome.unwrap().is_ok()
                    && outcome.unwrap().unwrap()@ == dir,
                PopulationView::Failed { error } => outcome.is_some() && outcome.unwrap().is_err()
                    && outcome.unwrap().unwrap_err()@ == error,
            },
    {
        match self.state {
            State::Listing { stack, path, size } => None,
            State::Done { dir } => Some(Ok(dir)),
            State::Failed { error } => Some(Err(error)),
        }
    }

    /// Hands the builder the answer to its pending request and returns the
    /// population in its next state.
    ///
    /// On whatever file system the answer is the listing of the pending
    /// directory, the step takes one listing of what the population comes
    /// to there and leaves the rest as it was.
    pub fn step(self, listing: Result<Vec<Listed>, ScanError>) -> (next: Population)
        ensures
            next@ == self@.step(reply_view(listing)),
            next@.wf(),
            forall|disk: Disk|
                self@ is Listing && #[trigger] disk.list(self@->path) == reply_view(listing)
                    ==> disk.growth(self@) == disk.growth(next@).after(1),
    {
        proof {
            use_type_invariant(&self);
            assert forall|disk: Disk|
                self@ is Listing && #[trigger] disk.list(self@->path) == reply_view(
                    listing,
                ) implies disk.growth(self@) == disk.growth(
                self@.step(reply_view(listing)),
            ).after(1) by {
                lemma_step_keeps_growth(disk, self@);
            }
        }
        match self.state {
            State::Listing { stack, path, size } => match listing {
                Ok(entries) => {
                    let dir = Directory::from(path, size);
                    assert(listing_view(entries@).skip(0) =~= listing_view(entries@));
                    settle(stack, Node { dir, entries, cursor: 0 })
                },
                Err(error) => Population { state: State::Failed { error } },
            },
            other => Population { state: other },
        }
    }
}

#[verifier::loop_isolation(false)]
fn settle(stack: Vec<Node>, node: Node) -> (next: Population)
    requires
        stack_ok(stack@),
        node.ok(),
    ensures
        next@ == PopulationView::settle(stack_view(stack@), node.view()),
        next@.wf(),
{
    let ghost goal = PopulationView::settle(stack_view(stack@), node.view());
    let mut stack = stack;
    let mut node = node;
    loop
        invariant
            stack_ok(stack@),
            node.ok(),
            goal == PopulationView::settle(stack_view(stack@), node.view()),
        decreases stack.len(), node.entries.len() - node.cursor,
    {
        let ghost views = stack_view(stack@);
        let ghost here = node.view();
        if node.cursor < node.entries.len() {
            let metadata = node.entries[node.cursor].metadata;
            let path = node.entries[node.cursor].path.clone();
            assert(here.rest.drop_first() =~= listing_view(node.entries@).skip(node.cursor + 1));
            let Node { dir, entries, cursor } = node;
            match FSEntry::from(path, metadata) {
                FSEntry::File(file) => {
                    node = Node { dir: dir.with_file(file), entries, cursor: cursor + 1 };
                },
                FSEntry::SymLink(link) => {
                    node = Node { dir, entries, cursor: cursor + 1 };
                },
                FSEntry::Directory(child) => {
                    if stack.len() >= MAX_DEPTH {
                        let error = ScanError::internal(
                            ErrorKind::DeepRecursionLimit,
                            child.path,
                        );
                        return Population { state: State::Failed { error } };
                    } else {
                        let parent = Node { dir, entries, cursor: cursor + 1 };
                        stack.push(parent);
                        assert(stack_view(stack@) =~= views.push(parent.view()));
                        return Population {
                            state: State::Listing { stack, path: child.path, size: child.size },
                        };
                    }
                },
            }
        } else {
            match stack.pop() {
                None => {
                    return Population { state: State::Done { dir: node.dir } };
                },
                Some(parent) => {
                    assert(stack_view(stack@) =~= views.drop_last());
                    let Node { dir, entries, cursor } = parent;
                    node = Node { dir: dir.with_dir(node.dir), entries, cursor };
                },
            }
        }
    }
}

} // verus!
