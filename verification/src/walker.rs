//! The walker: a depth-first traversal kept as an explicit stack, driven one
//! filesystem operation at a time.
//!
//! The walker never touches the filesystem. It says which operation it needs
//! next, and is handed the result of that operation together with the state of
//! the stop flag. Between two operations it examines exactly one entry.

use vstd::prelude::*;
use crate::path::{final_component, last_component};
use crate::shared::{overflows, PublishUpdate, SharedScanState, UpdateView};
use crate::tree::{
    lemma_with_child_consistent, lemma_with_file_consistent, lemma_with_status_consistent,
    NodeStatus, TreeNode, TreeView,
};

verus! {

/// One entry of a directory listing.
#[derive(Clone, Debug, PartialEq, Eq)]
pub struct DirEntryInfo {
    /// Full path of the entry.
    pub path: String,
    /// Whether the entry is a directory.
    pub is_dir: bool,
}

/// The mathematical value of a `DirEntryInfo`.
pub ghost struct EntryView {
    pub path: Seq<char>,
    pub is_dir: bool,
}

impl View for DirEntryInfo {
    type V = EntryView;

    open spec fn view(&self) -> EntryView {
        EntryView { path: self.path@, is_dir: self.is_dir }
    }
}

/// The values of a sequence of entries, in order.
pub open spec fn entry_views(entries: Seq<DirEntryInfo>) -> Seq<EntryView> {
    Seq::new(entries.len(), |i: int| entries[i]@)
}

/// What went wrong with one entry.
#[derive(Clone, Copy, Debug, PartialEq, Eq, Structural)]
pub enum FailureKind {
    /// A directory could not be listed; it counts as empty.
    ListingFailed,
    /// The length of a file could not be read; the file is not counted.
    MetadataUnavailable,
    /// Counting the entry would take a size beyond 64 bits; it is not counted.
    SizeOverflow,
}

/// A failure that the scan went on after.
#[derive(Clone, Debug, PartialEq, Eq)]
pub struct ScanFailure {
    /// Path of the entry that failed.
    pub path: String,
    /// What went wrong.
    pub kind: FailureKind,
}

/// The mathematical value of a `ScanFailure`.
pub ghost struct FailureView {
    pub path: Seq<char>,
    pub kind: FailureKind,
}

impl View for ScanFailure {
    type V = FailureView;

    open spec fn view(&self) -> FailureView {
        FailureView { path: self.path@, kind: self.kind }
    }
}

/// The values of a sequence of failures, in order.
pub open spec fn failure_views(failures: Seq<ScanFailure>) -> Seq<FailureView> {
    Seq::new(failures.len(), |i: int| failures[i]@)
}

/// The result of the filesystem operation that the walker asked for.
#[derive(Clone, Debug, PartialEq, Eq)]
pub enum WalkEvent {
    /// The entries of the directory that was to be listed.
    Listed(Vec<DirEntryInfo>),
    /// The directory could not be listed.
    ListingFailed,
    /// The length in bytes of the file that was to be measured.
    FileLength(u64),
    /// The length of the file could not be read.
    MetadataUnavailable,
}

/// The mathematical value of a `WalkEvent`.
pub ghost enum EventView {
    Listed(Seq<EntryView>),
    ListingFailed,
    FileLength(nat),
    MetadataUnavailable,
}

impl View for WalkEvent {
    type V = EventView;

    open spec fn view(&self) -> EventView {
        match self {
            WalkEvent::Listed(entries) => EventView::Listed(entry_views(entries@)),
            WalkEvent::ListingFailed => EventView::ListingFailed,
            WalkEvent::FileLength(len) => EventView::FileLength(*len as nat),
            WalkEvent::MetadataUnavailable => EventView::MetadataUnavailable,
        }
    }
}

/// How a walk ended.
#[derive(Clone, Copy, Debug, PartialEq, Eq, Structural)]
pub enum WalkOutcome {
    /// Every entry below the root was processed.
    Completed,
    /// The walk was stopped on request; the tree holds what was known by then.
    Cancelled,
    /// The root itself could not be listed.
    InvalidRootPath,
}

/// What the walker needs next.
#[derive(Clone, Debug, PartialEq, Eq)]
pub enum WalkAction {
    /// List the directory at this path.
    ListDirectory(String),
    /// Read the length of the file at this path.
    ReadFileLength(String),
    /// Nothing: the walk is over.
    Finished(WalkOutcome),
}

/// The mathematical value of a `WalkAction`.
pub ghost enum ActionView {
    ListDirectory(Seq<char>),
    ReadFileLength(Seq<char>),
    Finished(WalkOutcome),
}

impl View for WalkAction {
    type V = ActionView;

    open spec fn view(&self) -> ActionView {
        match self {
            WalkAction::ListDirectory(path) => ActionView::ListDirectory(path@),
            WalkAction::ReadFileLength(path) => ActionView::ReadFileLength(path@),
            WalkAction::Finished(outcome) => ActionView::Finished(*outcome),
        }
    }
}

/// What the walker is waiting for.
#[derive(Clone, Copy, Debug, PartialEq, Eq, Structural)]
pub enum Phase {
    /// The listing of the innermost open directory.
    Listing,
    /// The length of the file that was examined last.
    FileLength,
    /// Nothing: the walk ended in this way.
    Done(WalkOutcome),
}

/// The entries of a directory and how many of them were examined.
#[derive(Debug)]
pub struct Cursor {
    entries: Vec<DirEntryInfo>,
    next: usize,
}

/// The mathematical value of a `Cursor`.
pub ghost struct CursorView {
    pub entries: Seq<EntryView>,
    pub next: nat,
}

impl View for Cursor {
    type V = CursorView;

    closed spec fn view(&self) -> CursorView {
        CursorView { entries: entry_views(self.entries@), next: self.next as nat }
    }
}

/// The mathematical value of a `Walker`.
pub ghost struct WalkerView {
    /// The listings that are open, the root's first.
    pub cursors: Seq<CursorView>,
    /// The subdirectories that are being built, outermost first. The root is
    /// not among them: it is the published tree.
    pub nodes: Seq<TreeView>,
    /// What the walker is waiting for.
    pub phase: Phase,
    /// The failures recorded so far, oldest first.
    pub failures: Seq<FailureView>,
}

/// The node that a subdirectory starts as.
pub open spec fn fresh_node(path: Seq<char>) -> TreeView {
    TreeView {
        cumulative_size: 0,
        file_bytes: 0,
        name: final_component(path),
        path,
        children: Seq::empty(),
        status: NodeStatus::Pending,
    }
}

impl WalkerView {
    /// The walker at the start of a walk: nothing open, waiting for the
    /// root's listing.
    pub open spec fn initial() -> WalkerView {
        WalkerView {
            cursors: Seq::empty(),
            nodes: Seq::empty(),
            phase: Phase::Listing,
            failures: Seq::empty(),
        }
    }

    /// The shape that every walker between two steps has, and the size
    /// equation in every subtree that it is building.
    pub open spec fn wf(self) -> bool {
        &&& forall|i: int| 0 <= i < self.nodes.len() ==> (#[trigger] self.nodes[i]).consistent()
        &&& forall|i: int|
            0 <= i < self.cursors.len() ==> (#[trigger] self.cursors[i]).next
                <= self.cursors[i].entries.len()
        &&& match self.phase {
            Phase::Listing => self.cursors.len() == self.nodes.len(),
            Phase::FileLength => {
                &&& self.cursors.len() == self.nodes.len() + 1
                &&& self.cursors.last().next > 0
            },
            Phase::Done(_) => self.cursors.len() == 0 && self.nodes.len() == 0,
        }
    }

    /// The shape of a walker that is about to examine its next entry: every
    /// open directory but the root has its listing.
    pub open spec fn ready(self) -> bool {
        &&& forall|i: int| 0 <= i < self.nodes.len() ==> (#[trigger] self.nodes[i]).consistent()
        &&& forall|i: int|
            0 <= i < self.cursors.len() ==> (#[trigger] self.cursors[i]).next
                <= self.cursors[i].entries.len()
        &&& self.cursors.len() == self.nodes.len() + 1
    }

    /// This walker with one more failure recorded.
    pub open spec fn with_failure(self, path: Seq<char>, kind: FailureKind) -> WalkerView {
        WalkerView { failures: self.failures.push(FailureView { path, kind }), ..self }
    }

    /// Whether `event` is the result of the operation that this walker is
    /// waiting for.
    pub open spec fn accepts(self, event: EventView) -> bool {
        match self.phase {
            Phase::Listing => event is Listed || event is ListingFailed,
            Phase::FileLength => event is FileLength || event is MetadataUnavailable,
            Phase::Done(_) => false,
        }
    }

    /// The path of the entry that was examined last.
    pub open spec fn examined_path(self) -> Seq<char> {
        self.cursors.last().entries[self.cursors.last().next - 1].path
    }
}

/// The operation that the walker `w` is waiting for, `root` being the
/// published tree.
pub open spec fn pending_action(w: WalkerView, root: TreeView) -> ActionView {
    match w.phase {
        Phase::Listing => ActionView::ListDirectory(
            if w.nodes.len() == 0 {
                root.path
            } else {
                w.nodes.last().path
            },
        ),
        Phase::FileLength => ActionView::ReadFileLength(w.examined_path()),
        Phase::Done(outcome) => ActionView::Finished(outcome),
    }
}

/// Hands the finished subtree `node` to its parent: the innermost directory
/// that is being built, or the published root where there is none. A subtree
/// with which the parent's size would leave 64 bits is dropped, and recorded
/// as a failure.
pub open spec fn handed_up(w: WalkerView, root: TreeView, node: TreeView) -> (
    WalkerView,
    TreeView,
) {
    if w.nodes.len() > 0 {
        let parent = w.nodes.last();
        if parent.cumulative_size + node.cumulative_size <= u64::MAX {
            (WalkerView { nodes: w.nodes.drop_last().push(parent.with_child(node)), ..w }, root)
        } else {
            (w.with_failure(node.path, FailureKind::SizeOverflow), root)
        }
    } else {
        if root.cumulative_size + node.cumulative_size <= u64::MAX {
            (w, root.with_child(node))
        } else {
            (w.with_failure(node.path, FailureKind::SizeOverflow), root)
        }
    }
}

/// Counts a file of `len` bytes in the innermost directory that is being
/// built, or in the published root where there is none. A file with which a
/// size would leave 64 bits is not counted, and recorded as a failure.
pub open spec fn file_counted(w: WalkerView, root: TreeView, len: nat) -> (WalkerView, TreeView) {
    if w.nodes.len() > 0 {
        let top = w.nodes.last();
        if top.cumulative_size + len <= u64::MAX && top.file_bytes + len <= u64::MAX {
            (WalkerView { nodes: w.nodes.drop_last().push(top.with_file(len)), ..w }, root)
        } else {
            (w.with_failure(w.examined_path(), FailureKind::SizeOverflow), root)
        }
    } else {
        if !overflows(root, UpdateView::FileBytes(len)) {
            (w, root.with_file(len))
        } else {
            (w.with_failure(w.examined_path(), FailureKind::SizeOverflow), root)
        }
    }
}

/// The state after the walker took in `event`, the result of the operation it
/// was waiting for. The listing of a subdirectory opens a cursor; a
/// subdirectory that could not be listed is closed as errored and empty; a
/// file's length is counted; a file without a length is recorded.
pub open spec fn absorbed(w: WalkerView, root: TreeView, event: EventView) -> (
    WalkerView,
    TreeView,
) {
    match event {
        EventView::Listed(entries) => (
            WalkerView { cursors: w.cursors.push(CursorView { entries, next: 0 }), ..w },
            root,
        ),
        EventView::ListingFailed => {
            let node = w.nodes.last().with_status(NodeStatus::Errored);
            handed_up(
                WalkerView { nodes: w.nodes.drop_last(), ..w }.with_failure(
                    node.path,
                    FailureKind::ListingFailed,
                ),
                root,
                node,
            )
        },
        EventView::FileLength(len) => file_counted(w, root, len),
        EventView::MetadataUnavailable => (
            w.with_failure(w.examined_path(), FailureKind::MetadataUnavailable),
            root,
        ),
    }
}

/// The state after a stop: every directory that is being built is closed as
/// cancelled, innermost first, and handed to its parent with what it holds;
/// the root is marked as cancelled.
pub open spec fn unwound(w: WalkerView, root: TreeView) -> (WalkerView, TreeView)
    decreases w.nodes.len(),
{
    if w.nodes.len() == 0 {
        (
            WalkerView {
                cursors: Seq::empty(),
                phase: Phase::Done(WalkOutcome::Cancelled),
                ..w
            },
            root.with_status(NodeStatus::Cancelled),
        )
    } else {
        let node = w.nodes.last().with_status(NodeStatus::Cancelled);
        let next = handed_up(WalkerView { nodes: w.nodes.drop_last(), ..w }, root, node);
        unwound(next.0, next.1)
    }
}

/// The state and the operation after the walker went on to its next entry.
/// Directories whose entries are used up are closed as complete and handed to
/// their parents. The first entry that is left is examined: a directory is
/// opened and its listing asked for, of anything else the length is asked
/// for. Where no entry is left at all, the root is marked as complete and the
/// walk is over.
pub open spec fn advanced(w: WalkerView, root: TreeView) -> (WalkerView, TreeView, ActionView)
    decreases w.cursors.len(),
{
    if w.cursors.len() == 0 || w.cursors.len() != w.nodes.len() + 1 {
        (w, root, pending_action(w, root))
    } else {
        let cursor = w.cursors.last();
        if cursor.next < cursor.entries.len() {
            let entry = cursor.entries[cursor.next as int];
            let cursors = w.cursors.drop_last().push(
                CursorView { next: cursor.next + 1, ..cursor },
            );
            if entry.is_dir {
                (
                    WalkerView {
                        cursors,
                        nodes: w.nodes.push(fresh_node(entry.path)),
                        phase: Phase::Listing,
                        ..w
                    },
                    root,
                    ActionView::ListDirectory(entry.path),
                )
            } else {
                (
                    WalkerView { cursors, phase: Phase::FileLength, ..w },
                    root,
                    ActionView::ReadFileLength(entry.path),
                )
            }
        } else if w.nodes.len() == 0 {
            (
                WalkerView {
                    cursors: Seq::empty(),
                    phase: Phase::Done(WalkOutcome::Completed),
                    ..w
                },
                root.with_status(NodeStatus::Complete),
                ActionView::Finished(WalkOutcome::Completed),
            )
        } else {
            let node = w.nodes.last().with_status(NodeStatus::Complete);
            let next = handed_up(
                WalkerView { cursors: w.cursors.drop_last(), nodes: w.nodes.drop_last(), ..w },
                root,
                node,
            );
            advanced(next.0, next.1)
        }
    }
}

/// One step of the walk: the state and the next operation after `event`
/// arrived while the stop flag stood at `cancel`.
///
/// A walk that is over stays as it is. A root that could not be listed ends
/// the walk. Otherwise the event is taken in if it answers what the walker
/// asked for, and ignored if not. Then a stop request ends the walk; without
/// one the walker goes on to its next entry, or asks again where the event
/// was ignored.
pub open spec fn stepped(w: WalkerView, root: TreeView, event: EventView, cancel: bool) -> (
    WalkerView,
    TreeView,
    ActionView,
) {
    if w.phase is Done {
        (w, root, pending_action(w, root))
    } else if w.phase is Listing && w.nodes.len() == 0 && event is ListingFailed {
        (
            WalkerView { phase: Phase::Done(WalkOutcome::InvalidRootPath), ..w },
            root.with_status(NodeStatus::Errored),
            ActionView::Finished(WalkOutcome::InvalidRootPath),
        )
    } else if w.accepts(event) {
        let taken = absorbed(w, root, event);
        if cancel {
            let ended = unwound(taken.0, taken.1);
            (ended.0, ended.1, ActionView::Finished(WalkOutcome::Cancelled))
        } else {
            advanced(taken.0, taken.1)
        }
    } else if cancel {
        let ended = unwound(w, root);
        (ended.0, ended.1, ActionView::Finished(WalkOutcome::Cancelled))
    } else {
        (w, root, pending_action(w, root))
    }
}

/// Handing a subtree up keeps the walker's shape, and keeps the size equation
/// wherever it held.
pub proof fn lemma_handed_up(w: WalkerView, root: TreeView, node: TreeView)
    requires
        forall|i: int| 0 <= i < w.nodes.len() ==> (#[trigger] w.nodes[i]).consistent(),
        node.consistent(),
    ensures
        handed_up(w, root, node).0.nodes.len() == w.nodes.len(),
        handed_up(w, root, node).0.cursors == w.cursors,
        handed_up(w, root, node).0.phase == w.phase,
        forall|i: int|
            0 <= i < w.nodes.len() ==> (#[trigger] handed_up(w, root, node).0.nodes[i]).consistent(),
        root.consistent() ==> handed_up(w, root, node).1.consistent(),
{
    if w.nodes.len() > 0 {
        lemma_with_child_consistent(w.nodes.last(), node);
    } else if root.consistent() {
        lemma_with_child_consistent(root, node);
    }
}

/// The walker: the listings that are open and the subtrees that are being
/// built.
#[derive(Debug)]
pub struct Walker {
    cursors: Vec<Cursor>,
    nodes: Vec<TreeNode>,
    phase: Phase,
    failures: Vec<ScanFailure>,
}

impl View for Walker {
    type V = WalkerView;

    closed spec fn view(&self) -> WalkerView {
        WalkerView {
            cursors: Seq::new(self.cursors@.len(), |i: int| self.cursors@[i]@),
            nodes: Seq::new(self.nodes@.len(), |i: int| self.nodes@[i]@),
            phase: self.phase,
            failures: failure_views(self.failures@),
        }
    }
}

impl Walker {
    /// A walker at the start of a walk: it waits for the root's listing.
    pub fn new() -> (walker: Walker)
        ensures
            walker@ == WalkerView::initial(),
            walker@.wf(),
    {
        let walker = Walker {
            cursors: Vec::new(),
            nodes: Vec::new(),
            phase: Phase::Listing,
            failures: Vec::new(),
        };
        proof {
            assert(walker@.cursors =~= Seq::empty());
            assert(walker@.nodes =~= Seq::empty());
            assert(walker@.failures =~= Seq::empty());
        }
        walker
    }

    /// A walker whose walk is over.
    pub fn finished(outcome: WalkOutcome) -> (walker: Walker)
        ensures
            walker@ == (WalkerView { phase: Phase::Done(outcome), ..WalkerView::initial() }),
            walker@.wf(),
    {
        let walker = Walker {
            cursors: Vec::new(),
            nodes: Vec::new(),
            phase: Phase::Done(outcome),
            failures: Vec::new(),
        };
        proof {
            assert(walker@.cursors =~= Seq::empty());
            assert(walker@.nodes =~= Seq::empty());
            assert(walker@.failures =~= Seq::empty());
        }
        walker
    }

    /// What the walker is waiting for.
    pub fn phase(&self) -> (phase: Phase)
        ensures
            phase == self@.phase,
    {
        self.phase
    }

    /// The failures recorded so far, oldest first.
    pub fn failures(&self) -> (failures: &Vec<ScanFailure>)
        ensures
            failure_views(failures@) == self@.failures,
    {
        &self.failures
    }

    /// Records a failure.
    fn record(&mut self, path: String, kind: FailureKind)
        ensures
            final(self)@ == old(self)@.with_failure(path@, kind),
    {
        let ghost before = self@;
        self.failures.push(ScanFailure { path, kind });
        proof {
            assert(self@.failures =~= before.failures.push(FailureView { path: path@, kind }));
        }
    }

    /// The path of the entry that was examined last.
    fn examined(&self) -> (path: String)
        requires
            self@.cursors.len() > 0,
            0 < self@.cursors.last().next <= self@.cursors.last().entries.len(),
        ensures
            path@ == self@.examined_path(),
    {
        let cursor = &self.cursors[self.cursors.len() - 1];
        cursor.entries[cursor.next - 1].path.clone()
    }

    /// Hands a finished subtree to its parent.
    fn hand_up(&mut self, shared: &mut SharedScanState, node: TreeNode)
        ensures
            (final(self)@, final(shared)@) == handed_up(old(self)@, old(shared)@, node@),
    {
        let path = node.path.clone();
        let ghost before = self@;
        let ghost value = node@;
        let attached = if self.nodes.len() > 0 {
            let mut parent = self.nodes.pop().unwrap();
            let ghost above = parent@;
            let ok = parent.attach(node);
            self.nodes.push(parent);
            proof {
                if ok {
                    assert(self@.nodes =~= before.nodes.drop_last().push(
                        above.with_child(value),
                    ));
                } else {
                    assert(self@.nodes =~= before.nodes);
                }
            }
            ok
        } else {
            shared.publish(PublishUpdate::Attach(node)).is_ok()
        };
        if !attached {
            self.record(path, FailureKind::SizeOverflow);
        }
    }

    /// Counts the bytes of the file that was examined last.
    fn count_file(&mut self, shared: &mut SharedScanState, len: u64)
        requires
            old(self)@.cursors.len() > 0,
            0 < old(self)@.cursors.last().next <= old(self)@.cursors.last().entries.len(),
        ensures
            (final(self)@, final(shared)@) == file_counted(old(self)@, old(shared)@, len as nat),
    {
        let ghost before = self@;
        let counted = if self.nodes.len() > 0 {
            let mut top = self.nodes.pop().unwrap();
            let ghost above = top@;
            let ok = top.add_file_bytes(len);
            self.nodes.push(top);
            proof {
                if ok {
                    assert(self@.nodes =~= before.nodes.drop_last().push(
                        above.with_file(len as nat),
                    ));
                } else {
                    assert(self@.nodes =~= before.nodes);
                }
            }
            ok
        } else {
            shared.publish(PublishUpdate::FileBytes(len)).is_ok()
        };
        if !counted {
            let path = self.examined();
            self.record(path, FailureKind::SizeOverflow);
        }
    }

    /// Takes in the result of the operation that the walker was waiting for.
    fn absorb(&mut self, shared: &mut SharedScanState, event: WalkEvent)
        requires
            old(self)@.wf(),
            old(self)@.accepts(event@),
            !(old(self)@.nodes.len() == 0 && event@ is ListingFailed),
        ensures
            (final(self)@, final(shared)@) == absorbed(old(self)@, old(shared)@, event@),
    {
        let ghost before = self@;
        match event {
            WalkEvent::Listed(entries) => {
                let ghost listed = entry_views(entries@);
                self.cursors.push(Cursor { entries, next: 0 });
                proof {
                    assert(self@.cursors =~= before.cursors.push(
                        CursorView { entries: listed, next: 0 },
                    ));
                }
            },
            WalkEvent::ListingFailed => {
                let mut node = self.nodes.pop().unwrap();
                proof {
                    assert(self@.nodes =~= before.nodes.drop_last());
                }
                node.mark(NodeStatus::Errored);
                self.record(node.path.clone(), FailureKind::ListingFailed);
                self.hand_up(shared, node);
            },
            WalkEvent::FileLength(len) => {
                self.count_file(shared, len);
            },
            WalkEvent::MetadataUnavailable => {
                let path = self.examined();
                self.record(path, FailureKind::MetadataUnavailable);
            },
        }
    }

    /// Closes every directory that is being built as cancelled and ends the
    /// walk.
    fn unwind(&mut self, shared: &mut SharedScanState)
        ensures
            (final(self)@, final(shared)@) == unwound(old(self)@, old(shared)@),
    {
        let ghost goal = unwound(self@, shared@);
        while self.nodes.len() > 0
            invariant
                unwound(self@, shared@) == goal,
            decreases self@.nodes.len(),
        {
            let ghost before = self@;
            let mut node = self.nodes.pop().unwrap();
            proof {
                assert(self@ == WalkerView { nodes: before.nodes.drop_last(), ..before }) by {
                    assert(self@.nodes =~= before.nodes.drop_last());
                }
            }
            node.mark(NodeStatus::Cancelled);
            self.hand_up(shared, node);
        }
        let ghost before = self@;
        self.cursors.clear();
        self.phase = Phase::Done(WalkOutcome::Cancelled);
        let _ = shared.publish(PublishUpdate::Status(NodeStatus::Cancelled));
        proof {
            assert(self@.cursors =~= Seq::empty());
            assert(self@.nodes =~= before.nodes);
        }
    }

    /// Goes on to the next entry.
    fn advance(&mut self, shared: &mut SharedScanState) -> (action: WalkAction)
        requires
            old(self)@.ready(),
        ensures
            (final(self)@, final(shared)@, action@) == advanced(old(self)@, old(shared)@),
    {
        let ghost goal = advanced(self@, shared@);
        loop
            invariant
                self@.ready(),
                advanced(self@, shared@) == goal,
                goal == advanced(old(self)@, old(shared)@),
            decreases self@.cursors.len(),
        {
            let ghost before = self@;
            let mut cursor = self.cursors.pop().unwrap();
            proof {
                assert(self@.cursors =~= before.cursors.drop_last());
                assert(cursor@ == before.cursors.last());
            }
            if cursor.next < cursor.entries.len() {
                let path = cursor.entries[cursor.next].path.clone();
                let is_dir = cursor.entries[cursor.next].is_dir;
                let ghost entry = cursor@.entries[cursor.next as int];
                let ghost moved = CursorView { next: cursor@.next + 1, ..cursor@ };
                cursor.next = cursor.next + 1;
                self.cursors.push(cursor);
                proof {
                    assert(self@.cursors =~= before.cursors.drop_last().push(moved));
                }
                if is_dir {
                    let name = last_component(path.as_str());
                    let node = TreeNode::seed(path.as_str(), name.as_str());
                    self.nodes.push(node);
                    self.phase = Phase::Listing;
                    proof {
                        assert(self@.nodes =~= before.nodes.push(fresh_node(entry.path)));
                        assert(self@.cursors =~= before.cursors.drop_last().push(moved));
                    }
                    return WalkAction::ListDirectory(path);
                } else {
                    self.phase = Phase::FileLength;
                    proof {
                        assert(self@.nodes =~= before.nodes);
                        assert(self@.cursors =~= before.cursors.drop_last().push(moved));
                    }
                    return WalkAction::ReadFileLength(path);
                }
            } else if self.nodes.len() == 0 {
                self.phase = Phase::Done(WalkOutcome::Completed);
                let _ = shared.publish(PublishUpdate::Status(NodeStatus::Complete));
                proof {
                    assert(self@.cursors =~= Seq::empty());
                    assert(self@.nodes =~= before.nodes);
                }
                return WalkAction::Finished(WalkOutcome::Completed);
            } else {
                let mut node = self.nodes.pop().unwrap();
                let ghost closed = node@.with_status(NodeStatus::Complete);
                proof {
                    assert(self@.nodes =~= before.nodes.drop_last());
                    assert(self@ == WalkerView {
                        cursors: before.cursors.drop_last(),
                        nodes: before.nodes.drop_last(),
                        ..before
                    });
                    lemma_with_status_consistent(node@, NodeStatus::Complete);
                    lemma_handed_up(self@, shared@, closed);
                }
                node.mark(NodeStatus::Complete);
                self.hand_up(shared, node);
            }
        }
    }

    /// The operation that the walker is waiting for.
    pub fn pending(&self, shared: &SharedScanState) -> (action: WalkAction)
        requires
            self@.wf(),
        ensures
            action@ == pending_action(self@, shared@),
    {
        match self.phase {
            Phase::Listing => {
                if self.nodes.len() == 0 {
                    WalkAction::ListDirectory(shared.root_path())
                } else {
                    WalkAction::ListDirectory(self.nodes[self.nodes.len() - 1].path.clone())
                }
            },
            Phase::FileLength => WalkAction::ReadFileLength(self.examined()),
            Phase::Done(outcome) => WalkAction::Finished(outcome),
        }
    }

    /// One step of the walk: takes the result of the operation that was asked
    /// for and the state of the stop flag, and says what is needed next.
    pub fn step(&mut self, shared: &mut SharedScanState, event: WalkEvent, cancel: bool) -> (action:
        WalkAction)
        requires
            old(self)@.wf(),
        ensures
            (final(self)@, final(shared)@, action@) == stepped(
                old(self)@,
                old(shared)@,
                event@,
                cancel,
            ),
            final(self)@.wf(),
            old(shared).wf() ==> final(shared).wf(),
    {
        proof {
            lemma_step_keeps_shape(self@, shared@, event@, cancel);
        }
        let listing_failed = match &event {
            WalkEvent::ListingFailed => true,
            _ => false,
        };
        let answers = match (&self.phase, &event) {
            (Phase::Listing, WalkEvent::Listed(_)) => true,
            (Phase::Listing, WalkEvent::ListingFailed) => true,
            (Phase::FileLength, WalkEvent::FileLength(_)) => true,
            (Phase::FileLength, WalkEvent::MetadataUnavailable) => true,
            _ => false,
        };
        match self.phase {
            Phase::Done(_) => {
                return self.pending(shared);
            },
            _ => {},
        }
        if answers && listing_failed && self.nodes.len() == 0 {
            self.phase = Phase::Done(WalkOutcome::InvalidRootPath);
            let _ = shared.publish(PublishUpdate::Status(NodeStatus::Errored));
            return WalkAction::Finished(WalkOutcome::InvalidRootPath);
        }
        if answers {
            proof {
                lemma_absorbed_ready(self@, shared@, event@);
            }
            self.absorb(shared, event);
            if cancel {
                self.unwind(shared);
                WalkAction::Finished(WalkOutcome::Cancelled)
            } else {
                self.advance(shared)
            }
        } else if cancel {
            self.unwind(shared);
            WalkAction::Finished(WalkOutcome::Cancelled)
        } else {
            self.pending(shared)
        }
    }
}

/// Taking in an event that answers what was asked leaves the walker ready
/// for its next entry, and keeps the size equation.
pub proof fn lemma_absorbed_ready(w: WalkerView, root: TreeView, event: EventView)
    requires
        w.wf(),
        w.accepts(event),
        !(w.nodes.len() == 0 && event is ListingFailed),
    ensures
        absorbed(w, root, event).0.ready(),
        root.consistent() ==> absorbed(w, root, event).1.consistent(),
{
    match event {
        EventView::Listed(entries) => {},
        EventView::ListingFailed => {
            let node = w.nodes.last().with_status(NodeStatus::Errored);
            let rest = WalkerView { nodes: w.nodes.drop_last(), ..w }.with_failure(
                node.path,
                FailureKind::ListingFailed,
            );
            lemma_with_status_consistent(w.nodes.last(), NodeStatus::Errored);
            lemma_handed_up(rest, root, node);
        },
        EventView::FileLength(len) => {
            if w.nodes.len() > 0 {
                lemma_with_file_consistent(w.nodes.last(), len);
            } else if root.consistent() {
                lemma_with_file_consistent(root, len);
            }
        },
        EventView::MetadataUnavailable => {},
    }
}

/// A stop ends the walk with nothing left open, and keeps the size equation.
pub proof fn lemma_unwound(w: WalkerView, root: TreeView)
    requires
        forall|i: int| 0 <= i < w.nodes.len() ==> (#[trigger] w.nodes[i]).consistent(),
    ensures
        unwound(w, root).0.wf(),
        unwound(w, root).0.phase == Phase::Done(WalkOutcome::Cancelled),
        unwound(w, root).1.status == NodeStatus::Cancelled,
        root.consistent() ==> unwound(w, root).1.consistent(),
    decreases w.nodes.len(),
{
    if w.nodes.len() == 0 {
        if root.consistent() {
            lemma_with_status_consistent(root, NodeStatus::Cancelled);
        }
    } else {
        let node = w.nodes.last().with_status(NodeStatus::Cancelled);
        let rest = WalkerView { nodes: w.nodes.drop_last(), ..w };
        lemma_with_status_consistent(w.nodes.last(), NodeStatus::Cancelled);
        lemma_handed_up(rest, root, node);
        let next = handed_up(rest, root, node);
        lemma_unwound(next.0, next.1);
    }
}

/// Going on to the next entry leaves the walker in the shape it has between
/// two steps, and keeps the size equation.
pub proof fn lemma_advanced(w: WalkerView, root: TreeView)
    requires
        w.ready(),
    ensures
        advanced(w, root).0.wf(),
        root.consistent() ==> advanced(w, root).1.consistent(),
    decreases w.cursors.len(),
{
    let cursor = w.cursors.last();
    if cursor.next < cursor.entries.len() {
    } else if w.nodes.len() == 0 {
        if root.consistent() {
            lemma_with_status_consistent(root, NodeStatus::Complete);
        }
    } else {
        let node = w.nodes.last().with_status(NodeStatus::Complete);
        let rest = WalkerView {
            cursors: w.cursors.drop_last(),
            nodes: w.nodes.drop_last(),
            ..w
        };
        lemma_with_status_consistent(w.nodes.last(), NodeStatus::Complete);
        lemma_handed_up(rest, root, node);
        let next = handed_up(rest, root, node);
        lemma_advanced(next.0, next.1);
    }
}

/// Every step leaves the walker in the shape it has between two steps, with
/// the size equation in every subtree that it is building.
pub proof fn lemma_step_keeps_shape(w: WalkerView, root: TreeView, event: EventView, cancel: bool)
    requires
        w.wf(),
    ensures
        stepped(w, root, event, cancel).0.wf(),
        root.consistent() ==> stepped(w, root, event, cancel).1.consistent(),
{
    if w.phase is Done {
    } else if w.phase is Listing && w.nodes.len() == 0 && event is ListingFailed {
        if root.consistent() {
            lemma_with_status_consistent(root, NodeStatus::Errored);
        }
    } else if w.accepts(event) {
        lemma_absorbed_ready(w, root, event);
        let taken = absorbed(w, root, event);
        if cancel {
            lemma_unwound(taken.0, taken.1);
        } else {
            lemma_advanced(taken.0, taken.1);
        }
    } else if cancel {
        lemma_unwound(w, root);
    }
}

/// A stop request ends the walk at the next step, whatever the event: the
/// step asks for no further operation and leaves the walker done.
pub proof fn lemma_stop_ends_walk(w: WalkerView, root: TreeView, event: EventView)
    requires
        w.wf(),
    ensures
        stepped(w, root, event, true).0.phase is Done,
        stepped(w, root, event, true).2 is Finished,
        stepped(w, root, event, true).2 == pending_action(
            stepped(w, root, event, true).0,
            stepped(w, root, event, true).1,
        ),
{
    if w.phase is Done {
    } else if w.phase is Listing && w.nodes.len() == 0 && event is ListingFailed {
    } else if w.accepts(event) {
        lemma_absorbed_ready(w, root, event);
        let taken = absorbed(w, root, event);
        lemma_unwound(taken.0, taken.1);
    } else {
        lemma_unwound(w, root);
    }
}

/// A walk that is over stays over: a further step changes neither the walker
/// nor the published tree, and asks for no operation.
pub proof fn lemma_finished_walk_is_stable(
    w: WalkerView,
    root: TreeView,
    event: EventView,
    cancel: bool,
)
    requires
        w.phase is Done,
    ensures
        stepped(w, root, event, cancel).0 == w,
        stepped(w, root, event, cancel).1 == root,
        stepped(w, root, event, cancel).2 == ActionView::Finished(w.phase->Done_0),
{
}

/// The operation that a step asks for is the one that the walker then waits
/// for.
pub proof fn lemma_step_answers_pending(
    w: WalkerView,
    root: TreeView,
    event: EventView,
    cancel: bool,
)
    requires
        w.wf(),
    ensures
        stepped(w, root, event, cancel).2 == pending_action(
            stepped(w, root, event, cancel).0,
            stepped(w, root, event, cancel).1,
        ),
{
    if w.phase is Done {
    } else if w.phase is Listing && w.nodes.len() == 0 && event is ListingFailed {
    } else if w.accepts(event) {
        lemma_absorbed_ready(w, root, event);
        let taken = absorbed(w, root, event);
        if cancel {
            lemma_unwound(taken.0, taken.1);
        } else {
            lemma_advanced_answers_pending(taken.0, taken.1);
        }
    } else if cancel {
        lemma_unwound(w, root);
    }
}

/// The operation that the walker asks for when it goes on is the one that it
/// then waits for.
pub proof fn lemma_advanced_answers_pending(w: WalkerView, root: TreeView)
    requires
        w.ready(),
    ensures
        advanced(w, root).2 == pending_action(advanced(w, root).0, advanced(w, root).1),
    decreases w.cursors.len(),
{
    let cursor = w.cursors.last();
    if cursor.next < cursor.entries.len() {
    } else if w.nodes.len() == 0 {
    } else {
        let node = w.nodes.last().with_status(NodeStatus::Complete);
        let rest = WalkerView {
            cursors: w.cursors.drop_last(),
            nodes: w.nodes.drop_last(),
            ..w
        };
        lemma_with_status_consistent(w.nodes.last(), NodeStatus::Complete);
        lemma_handed_up(rest, root, node);
        let next = handed_up(rest, root, node);
        lemma_advanced_answers_pending(next.0, next.1);
    }
}

/// A step asks for no operation exactly when it leaves the walker done.
pub proof fn lemma_walk_ends_with_finished(
    w: WalkerView,
    root: TreeView,
    event: EventView,
    cancel: bool,
)
    requires
        w.wf(),
    ensures
        stepped(w, root, event, cancel).2 is Finished <==> stepped(
            w,
            root,
            event,
            cancel,
        ).0.phase is Done,
{
    lemma_step_answers_pending(w, root, event, cancel);
    lemma_step_keeps_shape(w, root, event, cancel);
}

/// Whether `longer` starts with the failures of `shorter`.
pub open spec fn keeps_failures(longer: WalkerView, shorter: WalkerView) -> bool {
    &&& shorter.failures.len() <= longer.failures.len()
    &&& forall|i: int| 0 <= i < shorter.failures.len() ==> longer.failures[i] == shorter.failures[i]
}

/// A stop only adds to the published tree and to the record of failures.
pub proof fn lemma_unwound_extends(w: WalkerView, root: TreeView)
    ensures
        unwound(w, root).1.extends(root),
        keeps_failures(unwound(w, root).0, w),
    decreases w.nodes.len(),
{
    if w.nodes.len() > 0 {
        let node = w.nodes.last().with_status(NodeStatus::Cancelled);
        let next = handed_up(WalkerView { nodes: w.nodes.drop_last(), ..w }, root, node);
        lemma_unwound_extends(next.0, next.1);
    }
}

/// Going on to the next entry only adds to the published tree and to the
/// record of failures.
pub proof fn lemma_advanced_extends(w: WalkerView, root: TreeView)
    ensures
        advanced(w, root).1.extends(root),
        keeps_failures(advanced(w, root).0, w),
    decreases w.cursors.len(),
{
    if w.cursors.len() == 0 || w.cursors.len() != w.nodes.len() + 1 {
    } else {
        let cursor = w.cursors.last();
        if cursor.next < cursor.entries.len() {
        } else if w.nodes.len() == 0 {
        } else {
            let node = w.nodes.last().with_status(NodeStatus::Complete);
            let next = handed_up(
                WalkerView { cursors: w.cursors.drop_last(), nodes: w.nodes.drop_last(), ..w },
                root,
                node,
            );
            lemma_advanced_extends(next.0, next.1);
        }
    }
}

/// The published tree is written once: a step leaves the root at its place,
/// keeps every subtree that was handed to it unchanged and at its position,
/// and lowers no size. The record of failures is only added to.
pub proof fn lemma_step_extends(w: WalkerView, root: TreeView, event: EventView, cancel: bool)
    ensures
        stepped(w, root, event, cancel).1.extends(root),
        keeps_failures(stepped(w, root, event, cancel).0, w),
{
    if w.phase is Done {
    } else if w.phase is Listing && w.nodes.len() == 0 && event is ListingFailed {
    } else if w.accepts(event) {
        let taken = absorbed(w, root, event);
        if cancel {
            lemma_unwound_extends(taken.0, taken.1);
        } else {
            lemma_advanced_extends(taken.0, taken.1);
        }
    } else if cancel {
        lemma_unwound_extends(w, root);
    }
}

} // verus!
