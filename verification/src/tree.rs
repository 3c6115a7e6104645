//! The size tree: one node per directory, each carrying the bytes of its whole
//! subtree.

use vstd::prelude::*;

verus! {

/// How far the scan of a directory got.
#[derive(Clone, Copy, Debug, PartialEq, Eq, Structural)]
pub enum NodeStatus {
    /// The scan of the directory has not ended.
    Pending,
    /// Every entry of the directory was processed.
    Complete,
    /// The directory could not be listed; it counts as empty.
    Errored,
    /// The scan was cancelled before the directory was finished.
    Cancelled,
}

/// A directory together with what is known of its subtree.
#[derive(Debug, PartialEq, Eq)]
pub struct TreeNode {
    /// Bytes of the files directly in this directory plus those of all
    /// subdirectories.
    pub cumulative_size: u64,
    /// Bytes of the files that lie directly in this directory.
    pub file_bytes: u64,
    /// Last component of `path`.
    pub name: String,
    /// Full path of the directory.
    pub path: String,
    /// The subdirectories, in the order in which they were finished.
    pub children: Vec<TreeNode>,
    /// How far the scan of this directory got.
    pub status: NodeStatus,
}

/// The mathematical value of a `TreeNode`.
pub ghost struct TreeView {
    pub cumulative_size: nat,
    pub file_bytes: nat,
    pub name: Seq<char>,
    pub path: Seq<char>,
    pub children: Seq<TreeView>,
    pub status: NodeStatus,
}

impl TreeNode {
    /// The value of this node: its fields, with the values of its children.
    pub open spec fn model(&self) -> TreeView
        decreases self,
    {
        TreeView {
            cumulative_size: self.cumulative_size as nat,
            file_bytes: self.file_bytes as nat,
            name: self.name@,
            path: self.path@,
            children: Seq::new(
                self.children@.len(),
                |i: int|
                    if 0 <= i < self.children@.len() {
                        self.children@[i].model()
                    } else {
                        arbitrary()
                    },
            ),
            status: self.status,
        }
    }
}

impl View for TreeNode {
    type V = TreeView;

    open spec fn view(&self) -> TreeView {
        self.model()
    }
}

/// Sum of the cumulative sizes of a sequence of subtrees.
pub open spec fn children_total(kids: Seq<TreeView>) -> nat
    decreases kids.len(),
{
    if kids.len() == 0 {
        0
    } else {
        children_total(kids.drop_last()) + kids.last().cumulative_size
    }
}

impl TreeView {
    /// The size equation holds here and at every node below: a node's
    /// cumulative size is the sum of its children's cumulative sizes plus the
    /// bytes of its own files.
    pub open spec fn consistent(self) -> bool
        decreases self,
    {
        &&& self.cumulative_size == children_total(self.children) + self.file_bytes
        &&& forall|i: int|
            0 <= i < self.children.len() ==> (#[trigger] self.children[i]).consistent()
    }

    /// This node after `len` more bytes of its own files were counted.
    pub open spec fn with_file(self, len: nat) -> TreeView {
        TreeView {
            cumulative_size: self.cumulative_size + len,
            file_bytes: self.file_bytes + len,
            ..self
        }
    }

    /// This node after the finished subtree `child` was appended to it.
    pub open spec fn with_child(self, child: TreeView) -> TreeView {
        TreeView {
            cumulative_size: self.cumulative_size + child.cumulative_size,
            children: self.children.push(child),
            ..self
        }
    }

    /// This node with another status.
    pub open spec fn with_status(self, status: NodeStatus) -> TreeView {
        TreeView { status, ..self }
    }

    /// This node is `before` grown: it stands at the same place, every child
    /// of `before` is still there, unchanged and at its position, and no size
    /// is smaller.
    pub open spec fn extends(self, before: TreeView) -> bool {
        &&& self.path == before.path
        &&& self.name == before.name
        &&& before.children.len() <= self.children.len()
        &&& forall|i: int|
            0 <= i < before.children.len() ==> self.children[i] == before.children[i]
        &&& before.cumulative_size <= self.cumulative_size
        &&& before.file_bytes <= self.file_bytes
    }

    /// This node with its children hidden; the sizes stay what they were.
    pub open spec fn stub(self) -> TreeView {
        TreeView { children: Seq::empty(), ..self }
    }

    /// This node with its direct children present and everything below them
    /// hidden.
    pub open spec fn shallow(self) -> TreeView {
        TreeView {
            children: Seq::new(self.children.len(), |i: int| self.children[i].stub()),
            ..self
        }
    }
}

/// The values of a sequence of nodes, in order.
pub open spec fn views(nodes: Seq<TreeNode>) -> Seq<TreeView> {
    Seq::new(nodes.len(), |i: int| nodes[i]@)
}

/// The finished directory of which the cumulative size and the subtrees are
/// known: the bytes that the subtrees do not account for are those of its own
/// files. Where the subtrees hold more than the directory as a whole, no
/// bytes are left for its files.
pub open spec fn assembled(
    cumulative_size: nat,
    name: Seq<char>,
    path: Seq<char>,
    children: Seq<TreeView>,
) -> TreeView {
    TreeView {
        cumulative_size,
        file_bytes: if children_total(children) <= cumulative_size {
            (cumulative_size - children_total(children)) as nat
        } else {
            0
        },
        name,
        path,
        children,
        status: NodeStatus::Complete,
    }
}

/// A directory assembled from subtrees in which the size equation holds, and
/// which hold no more than the directory as a whole, obeys the size equation.
pub proof fn lemma_assembled_consistent(
    cumulative_size: nat,
    name: Seq<char>,
    path: Seq<char>,
    children: Seq<TreeView>,
)
    requires
        children_total(children) <= cumulative_size,
        forall|i: int| 0 <= i < children.len() ==> (#[trigger] children[i]).consistent(),
    ensures
        assembled(cumulative_size, name, path, children).consistent(),
{
}

/// Appending a subtree adds its cumulative size to the total.
pub proof fn lemma_children_total_push(kids: Seq<TreeView>, child: TreeView)
    ensures
        children_total(kids.push(child)) == children_total(kids) + child.cumulative_size,
{
    assert(kids.push(child).drop_last() =~= kids);
}

/// The total of the first `n` subtrees never exceeds the total of all.
pub proof fn lemma_children_total_prefix(kids: Seq<TreeView>, n: int)
    requires
        0 <= n <= kids.len(),
    ensures
        children_total(kids.take(n)) <= children_total(kids),
    decreases kids.len(),
{
    if n == kids.len() {
        assert(kids.take(n) =~= kids);
    } else {
        lemma_children_total_prefix(kids.drop_last(), n);
        assert(kids.drop_last().take(n) =~= kids.take(n));
    }
}

/// Counting a file keeps the size equation.
pub proof fn lemma_with_file_consistent(node: TreeView, len: nat)
    requires
        node.consistent(),
    ensures
        node.with_file(len).consistent(),
{
}

/// Appending a subtree in which the size equation holds keeps it.
pub proof fn lemma_with_child_consistent(node: TreeView, child: TreeView)
    requires
        node.consistent(),
        child.consistent(),
    ensures
        node.with_child(child).consistent(),
{
    lemma_children_total_push(node.children, child);
}

/// The size equation does not depend on the status.
pub proof fn lemma_with_status_consistent(node: TreeView, status: NodeStatus)
    requires
        node.consistent(),
    ensures
        node.with_status(status).consistent(),
{
}

impl TreeNode {
    /// The view of a node holds the views of its children, in order.
    pub proof fn lemma_view_children(&self)
        ensures
            self@.children.len() == self.children@.len(),
            forall|i: int|
                0 <= i < self.children@.len() ==> self@.children[i] == (#[trigger] self.children@[i])@,
    {
    }

    /// An empty node for the directory at `path`: no bytes, no children, still
    /// pending.
    pub fn seed(path: &str, name: &str) -> (node: TreeNode)
        ensures
            node@ == (TreeView {
                cumulative_size: 0,
                file_bytes: 0,
                name: name@,
                path: path@,
                children: Seq::empty(),
                status: NodeStatus::Pending,
            }),
    {
        let node = TreeNode {
            cumulative_size: 0,
            file_bytes: 0,
            name: String::from_str(name),
            path: String::from_str(path),
            children: Vec::new(),
            status: NodeStatus::Pending,
        };
        assert(node@.children =~= Seq::empty());
        node
    }

    /// The finished directory with this cumulative size and these subtrees;
    /// the bytes of its own files are what the subtrees leave of the size.
    pub fn assemble(cumulative_size: u64, name: String, path: String, children: Vec<TreeNode>) -> (node:
        TreeNode)
        ensures
            node@ == assembled(cumulative_size as nat, name@, path@, views(children@)),
    {
        let ghost kids = views(children@);
        let mut below: u64 = 0;
        let mut fits = true;
        let mut i: usize = 0;
        while i < children.len()
            invariant
                i <= children@.len(),
                kids == views(children@),
                fits ==> below == children_total(kids.take(i as int)) && below <= cumulative_size,
                !fits ==> children_total(kids.take(i as int)) > cumulative_size,
            decreases children@.len() - i,
        {
            proof {
                let upto = kids.take(i as int);
                assert(kids.take(i + 1) =~= upto.push(children@[i as int]@));
                lemma_children_total_push(upto, children@[i as int]@);
            }
            if fits {
                if children[i].cumulative_size > cumulative_size - below {
                    fits = false;
                } else {
                    below = below + children[i].cumulative_size;
                }
            }
            i = i + 1;
        }
        proof {
            assert(kids.take(i as int) =~= kids);
        }
        let file_bytes = if fits {
            cumulative_size - below
        } else {
            0
        };
        let node = TreeNode {
            cumulative_size,
            file_bytes,
            name,
            path,
            children,
            status: NodeStatus::Complete,
        };
        proof {
            node.lemma_view_children();
            assert(node@.children =~= kids);
        }
        node
    }

    /// Counts `len` more bytes of files that lie directly in this directory.
    /// Nothing changes, and `false` is returned, where a size would no longer
    /// fit.
    pub fn add_file_bytes(&mut self, len: u64) -> (added: bool)
        ensures
            added == (old(self)@.cumulative_size + len <= u64::MAX && old(self)@.file_bytes + len
                <= u64::MAX),
            added ==> final(self)@ == old(self)@.with_file(len as nat),
            !added ==> final(self)@ == old(self)@,
    {
        if len > u64::MAX - self.cumulative_size || len > u64::MAX - self.file_bytes {
            return false;
        }
        proof {
            self.lemma_view_children();
        }
        let ghost before = self@;
        self.cumulative_size = self.cumulative_size + len;
        self.file_bytes = self.file_bytes + len;
        proof {
            self.lemma_view_children();
            assert(self@.children =~= before.children);
        }
        true
    }

    /// Appends the finished subtree `child` and adds its size to this node's.
    /// Nothing changes, and `false` is returned, where the size would no
    /// longer fit.
    pub fn attach(&mut self, child: TreeNode) -> (attached: bool)
        ensures
            attached == (old(self)@.cumulative_size + child@.cumulative_size <= u64::MAX),
            attached ==> final(self)@ == old(self)@.with_child(child@),
            !attached ==> final(self)@ == old(self)@,
    {
        if child.cumulative_size > u64::MAX - self.cumulative_size {
            return false;
        }
        proof {
            self.lemma_view_children();
        }
        let ghost before = self@;
        self.cumulative_size = self.cumulative_size + child.cumulative_size;
        self.children.push(child);
        proof {
            self.lemma_view_children();
            assert(self@.children =~= before.children.push(child@));
        }
        true
    }

    /// Sets the status of this node.
    pub fn mark(&mut self, status: NodeStatus)
        ensures
            final(self)@ == old(self)@.with_status(status),
    {
        proof {
            self.lemma_view_children();
        }
        let ghost before = self@;
        self.status = status;
        proof {
            self.lemma_view_children();
            assert(self@.children =~= before.children);
        }
    }

    /// A copy of this node without its children.
    pub fn stub(&self) -> (copy: TreeNode)
        ensures
            copy@ == self@.stub(),
    {
        let copy = TreeNode {
            cumulative_size: self.cumulative_size,
            file_bytes: self.file_bytes,
            name: self.name.clone(),
            path: self.path.clone(),
            children: Vec::new(),
            status: self.status,
        };
        assert(copy@.children =~= Seq::empty());
        copy
    }

    /// A copy of this node with its direct children, each of them without
    /// children of its own.
    pub fn shallow(&self) -> (copy: TreeNode)
        ensures
            copy@ == self@.shallow(),
    {
        let mut kids: Vec<TreeNode> = Vec::new();
        let mut i: usize = 0;
        while i < self.children.len()
            invariant
                i <= self.children@.len(),
                kids@.len() == i,
                forall|j: int| 0 <= j < i ==> (#[trigger] kids@[j])@ == self.children@[j]@.stub(),
            decreases self.children@.len() - i,
        {
            let kid = self.children[i].stub();
            kids.push(kid);
            i = i + 1;
        }
        let copy = TreeNode {
            cumulative_size: self.cumulative_size,
            file_bytes: self.file_bytes,
            name: self.name.clone(),
            path: self.path.clone(),
            children: kids,
            status: self.status,
        };
        proof {
            self.lemma_view_children();
            copy.lemma_view_children();
            assert(copy@.children =~= self@.shallow().children);
        }
        copy
    }

    /// Whether the size equation holds at this node and at every node below.
    /// Recurses as deep as the tree is.
    pub fn is_consistent(&self) -> (ok: bool)
        ensures
            ok == self@.consistent(),
        decreases self,
    {
        proof {
            self.lemma_view_children();
        }
        let mut sum: u64 = 0;
        let mut i: usize = 0;
        while i < self.children.len()
            invariant
                i <= self.children@.len(),
                self@.children.len() == self.children@.len(),
                forall|j: int|
                    0 <= j < self.children@.len() ==> self@.children[j] == (
                    #[trigger] self.children@[j])@,
                sum == children_total(self@.children.take(i as int)),
                sum <= self.cumulative_size,
                forall|j: int| 0 <= j < i ==> (#[trigger] self@.children[j]).consistent(),
            decreases self.children@.len() - i,
        {
            let kid = &self.children[i];
            proof {
                let upto = self@.children.take(i as int);
                assert(self@.children.take(i + 1) =~= upto.push(kid@));
                lemma_children_total_push(upto, kid@);
                lemma_children_total_prefix(self@.children, i + 1);
            }
            if !kid.is_consistent() {
                return false;
            }
            if kid.cumulative_size > self.cumulative_size - sum {
                return false;
            }
            sum = sum + kid.cumulative_size;
            i = i + 1;
        }
        proof {
            assert(self@.children.take(i as int) =~= self@.children);
        }
        self.file_bytes <= self.cumulative_size && self.cumulative_size - self.file_bytes == sum
    }

    /// A copy of the whole subtree. Recurses as deep as the tree is.
    pub fn duplicate(&self) -> (copy: TreeNode)
        ensures
            copy@ == self@,
        decreases self,
    {
        let mut kids: Vec<TreeNode> = Vec::new();
        let mut i: usize = 0;
        while i < self.children.len()
            invariant
                i <= self.children@.len(),
                kids@.len() == i,
                forall|j: int| 0 <= j < i ==> (#[trigger] kids@[j])@ == self.children@[j]@,
            decreases self.children@.len() - i,
        {
            let kid = self.children[i].duplicate();
            kids.push(kid);
            i = i + 1;
        }
        let copy = TreeNode {
            cumulative_size: self.cumulative_size,
            file_bytes: self.file_bytes,
            name: self.name.clone(),
            path: self.path.clone(),
            children: kids,
            status: self.status,
        };
        proof {
            self.lemma_view_children();
            copy.lemma_view_children();
            assert(copy@.children =~= self@.children);
        }
        copy
    }
}

} // verus!
