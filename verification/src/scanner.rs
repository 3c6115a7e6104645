//! The scanner: one scan at a time, its published tree, and the stop flag.
//!
//! The scanner runs no filesystem operation itself. `start` and `advance` say
//! which operation comes next; the caller performs it and hands the result to
//! `advance`. Between two operations the scanner is at rest, so a caller that
//! shares it between a scanning task and its readers holds it only for the
//! length of one call.

use vstd::prelude::*;
use crate::events::{notices, ScanEvent};
use crate::path::{canonical, last_component};
use crate::shared::{
    lemma_shallow_keeps_sizes, projected, PublishUpdate, QueryError, SharedScanState, DEPTH_FULL,
};
use crate::tree::{children_total, NodeStatus, TreeNode, TreeView};
use crate::walker::{
    failure_views, fresh_node, lemma_step_answers_pending, lemma_step_extends,
    lemma_step_keeps_shape, lemma_stop_ends_walk,
    lemma_walk_ends_with_finished, stepped,
    ActionView, EventView, Phase, ScanFailure, WalkAction, WalkEvent, WalkOutcome, Walker,
    WalkerView,
};

verus! {

/// Where a scanner stands.
#[derive(Clone, Copy, Debug, PartialEq, Eq, Structural)]
pub enum ScanState {
    /// No scan is running.
    Idle,
    /// A scan is running.
    Scanning,
    /// A scan is running and was asked to stop.
    Cancelling,
}

/// Why a scan was not started.
#[derive(Clone, Copy, Debug, PartialEq, Eq, Structural)]
pub enum ScanError {
    /// A scan is running already.
    AlreadyScanning,
    /// The root path is empty, or the directory at it cannot be listed.
    InvalidRootPath,
}

/// The mathematical value of a `DirectoryScanner`.
pub ghost struct ScannerView {
    /// Where the scanner stands.
    pub state: ScanState,
    /// The published tree.
    pub root: TreeView,
    /// The walker of the scan that runs, or that ran last.
    pub walker: WalkerView,
    /// Whether a stop was requested since the last start.
    pub stop_requested: bool,
    /// How the last scan ended, if one has ended since the last start.
    pub last_outcome: Option<WalkOutcome>,
}

impl ScannerView {
    /// What holds of every scanner: the size equation throughout the
    /// published tree and in everything the walker is building, and a state
    /// that agrees with the walker and the stop flag.
    pub open spec fn wf(self) -> bool {
        &&& self.root.consistent()
        &&& self.walker.wf()
        &&& self.state is Idle <==> self.walker.phase is Done
        &&& self.state is Scanning ==> !self.stop_requested
        &&& self.state is Cancelling ==> self.stop_requested
        &&& self.last_outcome matches Some(ended) ==> self.walker.phase == Phase::Done(ended)
    }

    /// A scanner that has not scanned yet: at rest, the stop flag down, no
    /// outcome, no failure, and an empty published root with an empty path.
    pub open spec fn fresh() -> ScannerView {
        ScannerView {
            state: ScanState::Idle,
            root: TreeView {
                cumulative_size: 0,
                file_bytes: 0,
                name: Seq::empty(),
                path: Seq::empty(),
                children: Seq::empty(),
                status: NodeStatus::Pending,
            },
            walker: WalkerView {
                cursors: Seq::empty(),
                nodes: Seq::empty(),
                phase: Phase::Done(WalkOutcome::Completed),
                failures: Seq::empty(),
            },
            stop_requested: false,
            last_outcome: None,
        }
    }

    /// The scanner after a stop request.
    pub open spec fn cancelled(self) -> ScannerView {
        ScannerView {
            state: if self.state is Idle {
                ScanState::Idle
            } else {
                ScanState::Cancelling
            },
            stop_requested: true,
            ..self
        }
    }

    /// Why a scan of `path` cannot start, if it cannot: a scan is running,
    /// or else the path is empty or the caller found that the directory
    /// cannot be listed.
    pub open spec fn refusal(self, path: Seq<char>, listable: bool) -> Option<ScanError> {
        if !(self.state is Idle) {
            Some(ScanError::AlreadyScanning)
        } else if path.len() == 0 || !listable {
            Some(ScanError::InvalidRootPath)
        } else {
            None
        }
    }

    /// The scanner after a scan of `path` started: the published root is
    /// empty, the walker waits for the root's listing, the stop flag is down.
    pub open spec fn started(self, path: Seq<char>) -> ScannerView {
        ScannerView {
            state: ScanState::Scanning,
            root: fresh_node(path),
            walker: WalkerView {
                cursors: Seq::empty(),
                nodes: Seq::empty(),
                phase: Phase::Listing,
                failures: Seq::empty(),
            },
            stop_requested: false,
            last_outcome: None,
        }
    }

    /// The scanner after `event` arrived, and the operation that comes next.
    /// A scanner at rest ignores the event and asks for nothing.
    pub open spec fn advanced(self, event: EventView) -> (ScannerView, Option<ActionView>) {
        if self.state is Idle {
            (self, None)
        } else {
            let next = stepped(self.walker, self.root, event, self.stop_requested);
            (
                ScannerView {
                    state: if next.2 is Finished {
                        ScanState::Idle
                    } else {
                        self.state
                    },
                    root: next.1,
                    walker: next.0,
                    last_outcome: match next.2 {
                        ActionView::Finished(ended) => Some(ended),
                        _ => self.last_outcome,
                    },
                    ..self
                },
                Some(next.2),
            )
        }
    }
}

/// A directory scanner: the published tree of its last scan, and the scan
/// that is running, if one is.
pub struct DirectoryScanner {
    state: ScanState,
    shared: SharedScanState,
    walker: Walker,
    stop_requested: bool,
    last_outcome: Option<WalkOutcome>,
    /// The events that this scanner notifies.
    pub events: ScanEvent,
}

impl View for DirectoryScanner {
    type V = ScannerView;

    closed spec fn view(&self) -> ScannerView {
        ScannerView {
            state: self.state,
            root: self.shared@,
            walker: self.walker@,
            stop_requested: self.stop_requested,
            last_outcome: self.last_outcome,
        }
    }
}

impl DirectoryScanner {
    /// A scanner that has not scanned yet.
    pub fn new() -> (scanner: DirectoryScanner)
        ensures
            scanner@ == ScannerView::fresh(),
            scanner@.wf(),
    {
        DirectoryScanner {
            state: ScanState::Idle,
            shared: SharedScanState::new(),
            walker: Walker::finished(WalkOutcome::Completed),
            stop_requested: false,
            last_outcome: None,
            events: ScanEvent::new(),
        }
    }

    /// Where the scanner stands.
    pub fn state(&self) -> (state: ScanState)
        ensures
            state == self@.state,
    {
        self.state
    }

    /// Whether a stop was requested since the last start.
    pub fn is_stop_requested(&self) -> (stop: bool)
        ensures
            stop == self@.stop_requested,
    {
        self.stop_requested
    }

    /// Asks the running scan to stop. The scan ends when the operation that is
    /// under way has come back. Asking twice is asking once.
    pub fn request_stop(&mut self)
        requires
            old(self)@.wf(),
        ensures
            final(self)@ == old(self)@.cancelled(),
            final(self)@.wf(),
    {
        self.stop_requested = true;
        match self.state {
            ScanState::Idle => {},
            _ => {
                self.state = ScanState::Cancelling;
            },
        }
    }

    /// Starts a scan of the directory at `root_path` and says which operation
    /// comes first: the listing of that directory. `root_listable` is what
    /// the caller found when it tried to open that directory. Refused while a
    /// scan is running, for an empty path, and for a directory that cannot be
    /// listed.
    pub fn start(&mut self, root_path: &str, root_listable: bool) -> (result: Result<
        WalkAction,
        ScanError,
    >)
        requires
            old(self)@.wf(),
        ensures
            final(self)@.wf(),
            match old(self)@.refusal(root_path@, root_listable) {
                Some(reason) => {
                    &&& result == Err::<WalkAction, ScanError>(reason)
                    &&& final(self)@ == old(self)@
                },
                None => {
                    &&& result is Ok
                    &&& result->Ok_0@ == ActionView::ListDirectory(root_path@)
                    &&& final(self)@ == old(self)@.started(root_path@)
                },
            },
    {
        match self.state {
            ScanState::Idle => {},
            _ => {
                return Err(ScanError::AlreadyScanning);
            },
        }
        if root_path.unicode_len() == 0 || !root_listable {
            return Err(ScanError::InvalidRootPath);
        }
        let name = last_component(root_path);
        let root = TreeNode::seed(root_path, name.as_str());
        let _ = self.shared.publish(PublishUpdate::Replace(root));
        self.walker = Walker::new();
        self.stop_requested = false;
        self.last_outcome = None;
        self.state = ScanState::Scanning;
        let first = WalkAction::ListDirectory(String::from_str(root_path));
        let due = notices(0, 0, &first);
        if due.error {
            self.events.error.notify(usize::MAX);
        }
        if due.start {
            self.events.start.notify(usize::MAX);
        }
        if due.complete {
            self.events.complete.notify(usize::MAX);
        }
        Ok(first)
    }

    /// Hands the scanner the result of the operation it asked for, and says
    /// which operation comes next. At rest the scanner ignores the event and
    /// returns `None`.
    pub fn advance(&mut self, event: WalkEvent) -> (action: Option<WalkAction>)
        requires
            old(self)@.wf(),
        ensures
            final(self)@.wf(),
            final(self)@ == old(self)@.advanced(event@).0,
            match old(self)@.advanced(event@).1 {
                Some(next) => action is Some && action->Some_0@ == next,
                None => action is None,
            },
    {
        match self.state {
            ScanState::Idle => {
                return None;
            },
            _ => {},
        }
        proof {
            lemma_step_keeps_shape(self.walker@, self.shared@, event@, self.stop_requested);
            lemma_walk_ends_with_finished(self.walker@, self.shared@, event@, self.stop_requested);
            lemma_step_answers_pending(self.walker@, self.shared@, event@, self.stop_requested);
        }
        let failures_before = self.walker.failures().len();
        let action = self.walker.step(&mut self.shared, event, self.stop_requested);
        match &action {
            WalkAction::Finished(outcome) => {
                self.state = ScanState::Idle;
                self.last_outcome = Some(*outcome);
            },
            _ => {},
        }
        let due = notices(failures_before, self.walker.failures().len(), &action);
        if due.error {
            self.events.error.notify(usize::MAX);
        }
        if due.start {
            self.events.start.notify(usize::MAX);
        }
        if due.complete {
            self.events.complete.notify(usize::MAX);
        }
        Some(action)
    }

    /// A copy of the published tree as seen at `depth`, if `path` is the path
    /// of its root. Answers at any time, also while a scan is running.
    pub fn query(&self, path: &str, depth: i32) -> (result: Result<TreeNode, QueryError>)
        ensures
            match projected(self@.root, path@, depth) {
                Ok(tree) => result is Ok && result->Ok_0@ == tree,
                Err(reason) => result == Err::<TreeNode, QueryError>(reason),
            },
    {
        self.shared.snapshot(path, depth)
    }

    /// How the last scan ended, if one has ended since the last start.
    pub fn last_outcome(&self) -> (outcome: Option<WalkOutcome>)
        ensures
            outcome == self@.last_outcome,
    {
        self.last_outcome
    }

    /// The failures that the scan recorded and went on after, oldest first.
    pub fn failures(&self) -> (failures: &Vec<ScanFailure>)
        ensures
            failure_views(failures@) == self@.walker.failures,
    {
        self.walker.failures()
    }
}

/// A scanner that has not scanned yet; see `DirectoryScanner::new`.
pub fn create_directory_scanner() -> (scanner: DirectoryScanner)
    ensures
        scanner@ == ScannerView::fresh(),
        scanner@.wf(),
{
    DirectoryScanner::new()
}

/// Starts a scan of the directory at `path` on `scanner`; see
/// `DirectoryScanner::start`. The scan itself runs in the caller's hands, one
/// operation after the other, beside whatever else the caller does.
pub fn scan_directory_async(
    scanner: &mut DirectoryScanner,
    path: &str,
    root_listable: bool,
) -> (result: Result<WalkAction, ScanError>)
    requires
        old(scanner)@.wf(),
    ensures
        final(scanner)@.wf(),
        match old(scanner)@.refusal(path@, root_listable) {
            Some(reason) => {
                &&& result == Err::<WalkAction, ScanError>(reason)
                &&& final(scanner)@ == old(scanner)@
            },
            None => {
                &&& result is Ok
                &&& result->Ok_0@ == ActionView::ListDirectory(path@)
                &&& final(scanner)@ == old(scanner)@.started(path@)
            },
        },
{
    scanner.start(path, root_listable)
}

/// The published tree of `scanner` as seen at `depth`, if `path` is the path
/// of its root; see `DirectoryScanner::query`.
pub fn get_directory_map(scanner: &DirectoryScanner, path: &str, depth: i32) -> (result: Result<
    TreeNode,
    QueryError,
>)
    ensures
        match projected(scanner@.root, path@, depth) {
            Ok(tree) => result is Ok && result->Ok_0@ == tree,
            Err(reason) => result == Err::<TreeNode, QueryError>(reason),
        },
{
    scanner.query(path, depth)
}

/// Asks the scan that runs on `scanner` to stop; see
/// `DirectoryScanner::request_stop`.
pub fn stop_scanning(scanner: &mut DirectoryScanner)
    requires
        old(scanner)@.wf(),
    ensures
        final(scanner)@ == old(scanner)@.cancelled(),
        final(scanner)@.wf(),
{
    scanner.request_stop()
}

/// Whatever is done with a scanner, the size equation holds throughout its
/// published tree and in every subtree that its walker is building: a node's
/// cumulative size is the sum of its children's cumulative sizes plus the
/// bytes of its own files.
pub proof fn lemma_scanner_stays_consistent(s: ScannerView, path: Seq<char>, event: EventView)
    requires
        s.wf(),
    ensures
        s.cancelled().wf(),
        s.refusal(path, true) is None ==> s.started(path).wf(),
        s.advanced(event).0.wf(),
{
    if !(s.state is Idle) {
        lemma_step_keeps_shape(s.walker, s.root, event, s.stop_requested);
        lemma_walk_ends_with_finished(s.walker, s.root, event, s.stop_requested);
        lemma_step_answers_pending(s.walker, s.root, event, s.stop_requested);
    }
}

/// An event only adds to the published tree: the root stays at its place,
/// every subtree that was handed to it stays unchanged and at its position,
/// and no size gets smaller.
pub proof fn lemma_advance_extends_tree(s: ScannerView, event: EventView)
    ensures
        s.advanced(event).0.root.extends(s.root),
{
    if !(s.state is Idle) {
        lemma_step_extends(s.walker, s.root, event, s.stop_requested);
    }
}

/// What a query returns obeys the size equation too: at full depth in the
/// whole tree, at depth zero at the root, whose children keep the sizes of
/// their subtrees.
pub proof fn lemma_query_sees_consistent_tree(s: ScannerView, path: Seq<char>, depth: i32)
    requires
        s.wf(),
        projected(s.root, path, depth) is Ok,
    ensures
        ({
            let seen = projected(s.root, path, depth)->Ok_0;
            &&& seen.cumulative_size == children_total(seen.children) + seen.file_bytes
            &&& depth == DEPTH_FULL ==> seen.consistent()
        }),
{
    lemma_shallow_keeps_sizes(s.root);
}

/// Once a stop was requested, the scan ends with the next event: the scanner
/// asks for no further operation and is at rest. From then on no event
/// changes the published tree, so every later query sees what the one before
/// it saw.
pub proof fn lemma_stop_ends_scan(
    s: ScannerView,
    event: EventView,
    later: EventView,
    path: Seq<char>,
    depth: i32,
)
    requires
        s.wf(),
        !(s.state is Idle),
    ensures
        ({
            let ended = s.cancelled().advanced(event);
            &&& ended.0.state is Idle
            &&& ended.1 is Some
            &&& ended.1->Some_0 is Finished
            &&& ended.0.advanced(later) == (ended.0, None::<ActionView>)
            &&& projected(ended.0.advanced(later).0.root, path, depth) == projected(
                ended.0.root,
                path,
                depth,
            )
        }),
{
    lemma_stop_ends_walk(s.walker, s.root, event);
}

/// A query for a path that is not the published root's is answered with
/// `NotFound`, whatever the depth and whatever the scanner is doing.
pub proof fn lemma_other_path_is_not_found(s: ScannerView, path: Seq<char>, depth: i32)
    requires
        canonical(s.root.path) != canonical(path),
    ensures
        projected(s.root, path, depth) == Err::<TreeView, QueryError>(QueryError::NotFound),
{
}

} // verus!
