//! The published tree: the one root that readers see while a scan fills it.

use vstd::prelude::*;
use crate::path::{canonical, same_location};
use crate::tree::{
    children_total, lemma_with_child_consistent, lemma_with_file_consistent,
    lemma_with_status_consistent, NodeStatus, TreeNode, TreeView,
};

verus! {

/// The depth that asks for the root and its direct children only.
pub const DEPTH_CHILDREN: i32 = 0;

/// The depth that asks for the whole subtree.
pub const DEPTH_FULL: i32 = 1;

/// Why a query gave no tree.
#[derive(Clone, Copy, Debug, PartialEq, Eq, Structural)]
pub enum QueryError {
    /// The path is not that of the published root.
    NotFound,
    /// The depth is neither `DEPTH_CHILDREN` nor `DEPTH_FULL`.
    InvalidDepth,
}

/// Why an update was not applied.
#[derive(Clone, Copy, Debug, PartialEq, Eq, Structural)]
pub enum PublishError {
    /// The root's size would no longer fit in 64 bits.
    SizeOverflow,
}

/// A change to the published tree.
#[derive(Debug, PartialEq, Eq)]
pub enum PublishUpdate {
    /// Replace the root as a whole.
    Replace(TreeNode),
    /// Append a finished subtree to the root.
    Attach(TreeNode),
    /// Count the bytes of a file that lies directly in the root.
    FileBytes(u64),
    /// Set the root's status.
    Status(NodeStatus),
}

/// The mathematical value of a `PublishUpdate`.
pub ghost enum UpdateView {
    Replace(TreeView),
    Attach(TreeView),
    FileBytes(nat),
    Status(NodeStatus),
}

impl View for PublishUpdate {
    type V = UpdateView;

    open spec fn view(&self) -> UpdateView {
        match self {
            PublishUpdate::Replace(node) => UpdateView::Replace(node@),
            PublishUpdate::Attach(node) => UpdateView::Attach(node@),
            PublishUpdate::FileBytes(len) => UpdateView::FileBytes(*len as nat),
            PublishUpdate::Status(status) => UpdateView::Status(*status),
        }
    }
}

impl UpdateView {
    /// The size equation holds in the tree that the update carries, if it
    /// carries one.
    pub open spec fn consistent(self) -> bool {
        match self {
            UpdateView::Replace(node) => node.consistent(),
            UpdateView::Attach(node) => node.consistent(),
            UpdateView::FileBytes(_) => true,
            UpdateView::Status(_) => true,
        }
    }
}

/// Whether `update` is refused on `root` because a size would leave 64 bits.
pub open spec fn overflows(root: TreeView, update: UpdateView) -> bool {
    match update {
        UpdateView::Replace(_) => false,
        UpdateView::Attach(node) => root.cumulative_size + node.cumulative_size > u64::MAX,
        UpdateView::FileBytes(len) => root.cumulative_size + len > u64::MAX || root.file_bytes
            + len > u64::MAX,
        UpdateView::Status(_) => false,
    }
}

/// The root after `update`; a refused update leaves it as it was.
pub open spec fn updated(root: TreeView, update: UpdateView) -> TreeView {
    if overflows(root, update) {
        root
    } else {
        match update {
            UpdateView::Replace(node) => node,
            UpdateView::Attach(node) => root.with_child(node),
            UpdateView::FileBytes(len) => root.with_file(len),
            UpdateView::Status(status) => root.with_status(status),
        }
    }
}

/// What a query for `path` at `depth` sees of `root`.
pub open spec fn projected(root: TreeView, path: Seq<char>, depth: i32) -> Result<
    TreeView,
    QueryError,
> {
    if canonical(root.path) != canonical(path) {
        Err(QueryError::NotFound)
    } else if depth == DEPTH_CHILDREN {
        Ok(root.shallow())
    } else if depth == DEPTH_FULL {
        Ok(root)
    } else {
        Err(QueryError::InvalidDepth)
    }
}

/// An update keeps the size equation in the published tree.
pub proof fn lemma_update_keeps_consistency(root: TreeView, update: UpdateView)
    requires
        root.consistent(),
        update.consistent(),
    ensures
        updated(root, update).consistent(),
{
    match update {
        UpdateView::Replace(_) => {},
        UpdateView::Attach(node) => {
            lemma_with_child_consistent(root, node);
        },
        UpdateView::FileBytes(len) => {
            lemma_with_file_consistent(root, len);
        },
        UpdateView::Status(status) => {
            lemma_with_status_consistent(root, status);
        },
    }
}

/// Hiding what lies below the direct children changes no size: the view at
/// depth zero has as many children as the root, each with the cumulative size
/// of its whole subtree and with no children of its own.
pub proof fn lemma_shallow_keeps_sizes(root: TreeView)
    ensures
        root.shallow().cumulative_size == root.cumulative_size,
        root.shallow().file_bytes == root.file_bytes,
        root.shallow().children.len() == root.children.len(),
        forall|i: int|
            0 <= i < root.children.len() ==> {
                &&& (#[trigger] root.shallow().children[i]).children.len() == 0
                &&& root.shallow().children[i].cumulative_size == root.children[i].cumulative_size
                &&& root.shallow().children[i].path == root.children[i].path
                &&& root.shallow().children[i].name == root.children[i].name
            },
        children_total(root.shallow().children) == children_total(root.children),
{
    lemma_total_by_sizes(root.shallow().children, root.children);
}

/// Two sequences of subtrees with the same sizes have the same total.
pub proof fn lemma_total_by_sizes(a: Seq<TreeView>, b: Seq<TreeView>)
    requires
        a.len() == b.len(),
        forall|i: int| 0 <= i < a.len() ==> a[i].cumulative_size == b[i].cumulative_size,
    ensures
        children_total(a) == children_total(b),
    decreases a.len(),
{
    if a.len() > 0 {
        lemma_total_by_sizes(a.drop_last(), b.drop_last());
    }
}

/// The published root of a scanner.
#[derive(Debug)]
pub struct SharedScanState {
    root: TreeNode,
}

impl View for SharedScanState {
    type V = TreeView;

    closed spec fn view(&self) -> TreeView {
        self.root@
    }
}

impl SharedScanState {
    /// The size equation holds throughout the published tree.
    pub open spec fn wf(&self) -> bool {
        self@.consistent()
    }

    /// A state whose root is empty and has an empty path.
    pub fn new() -> (state: SharedScanState)
        ensures
            state.wf(),
            state@ == (TreeView {
                cumulative_size: 0,
                file_bytes: 0,
                name: Seq::empty(),
                path: Seq::empty(),
                children: Seq::empty(),
                status: NodeStatus::Pending,
            }),
    {
        let root = TreeNode {
            cumulative_size: 0,
            file_bytes: 0,
            name: String::new(),
            path: String::new(),
            children: Vec::new(),
            status: NodeStatus::Pending,
        };
        assert(root@.children =~= Seq::empty());
        SharedScanState { root }
    }

    /// The path of the published root.
    pub fn root_path(&self) -> (path: String)
        ensures
            path@ == self@.path,
    {
        self.root.path.clone()
    }

    /// Applies `update` to the published tree. An update under which a size
    /// would leave 64 bits is refused and changes nothing.
    pub fn publish(&mut self, update: PublishUpdate) -> (result: Result<(), PublishError>)
        ensures
            final(self)@ == updated(old(self)@, update@),
            result == if overflows(old(self)@, update@) {
                Err::<(), PublishError>(PublishError::SizeOverflow)
            } else {
                Ok(())
            },
            old(self).wf() && update@.consistent() ==> final(self).wf(),
    {
        proof {
            if self.wf() && update@.consistent() {
                lemma_update_keeps_consistency(self@, update@);
            }
        }
        let done = match update {
            PublishUpdate::Replace(node) => {
                self.root = node;
                true
            },
            PublishUpdate::Attach(node) => self.root.attach(node),
            PublishUpdate::FileBytes(len) => self.root.add_file_bytes(len),
            PublishUpdate::Status(status) => {
                self.root.mark(status);
                true
            },
        };
        if done {
            Ok(())
        } else {
            Err(PublishError::SizeOverflow)
        }
    }

    /// A copy of the published tree as seen at `depth`, if `path` is the path
    /// of the root.
    pub fn snapshot(&self, path: &str, depth: i32) -> (result: Result<TreeNode, QueryError>)
        ensures
            match projected(self@, path@, depth) {
                Ok(tree) => result is Ok && result->Ok_0@ == tree,
                Err(reason) => result == Err::<TreeNode, QueryError>(reason),
            },
    {
        if !same_location(self.root.path.as_str(), path) {
            Err(QueryError::NotFound)
        } else if depth == DEPTH_CHILDREN {
            Ok(self.root.shallow())
        } else if depth == DEPTH_FULL {
            Ok(self.root.duplicate())
        } else {
            Err(QueryError::InvalidDepth)
        }
    }
}

} // verus!
