//! Notifications that a scan sends to whoever listens.

use vstd::prelude::*;
use crate::walker::{ActionView, WalkAction, WalkOutcome};
use event_listener::Event;

verus! {

/// `event_listener::Event`, a handle on a list of listeners. Nothing of what
/// it holds is visible here.
#[verifier::external_type_specification]
#[verifier::external_body]
pub struct ExEvent(Event);

/// `Event::new` makes an event without listeners. Nothing is claimed of the
/// value.
pub assume_specification[ Event::new ]() -> (event: Event)
;

/// `Event::notify` notifies listeners that are registered at the time of the
/// call, until `n` of them are notified; without listeners the notification
/// is lost. It returns nothing, and nothing is claimed of its effect.
pub assume_specification[ Event::notify ](event: &Event, n: usize)
;

/// The three events of a scanner. Whoever wants to hear of one registers a
/// listener on it.
pub struct ScanEvent {
    /// Notified whenever the listing of a directory is asked for.
    pub start: Event,
    /// Notified when a scan ends.
    pub complete: Event,
    /// Notified whenever a step recorded a failure, and when the root could
    /// not be listed.
    pub error: Event,
}

/// Which of a scanner's events are due.
#[derive(Clone, Copy, Debug, PartialEq, Eq, Structural)]
pub struct Notices {
    /// The listing of a directory was asked for.
    pub start: bool,
    /// A failure was recorded, or the root could not be listed.
    pub error: bool,
    /// The scan ended.
    pub complete: bool,
}

/// The events that are due after a step that took the number of recorded
/// failures from `failures_before` to `failures_after` and asked for
/// `action`: `start` where a directory is to be listed, `error` where a
/// failure was added or the root could not be listed, `complete` where the
/// scan is over.
pub open spec fn notices_due(failures_before: nat, failures_after: nat, action: ActionView) -> Notices {
    Notices {
        start: action is ListDirectory,
        error: failures_after != failures_before || action == ActionView::Finished(
            WalkOutcome::InvalidRootPath,
        ),
        complete: action is Finished,
    }
}

/// The events that are due after a step; see `notices_due`.
pub fn notices(failures_before: usize, failures_after: usize, action: &WalkAction) -> (due: Notices)
    ensures
        due == notices_due(failures_before as nat, failures_after as nat, action@),
{
    let grew = failures_after != failures_before;
    match action {
        WalkAction::ListDirectory(_) => Notices { start: true, error: grew, complete: false },
        WalkAction::ReadFileLength(_) => Notices { start: false, error: grew, complete: false },
        WalkAction::Finished(outcome) => {
            let unlisted = match outcome {
                WalkOutcome::InvalidRootPath => true,
                _ => false,
            };
            Notices { start: false, error: grew || unlisted, complete: true }
        },
    }
}

impl ScanEvent {
    /// Three events without listeners.
    pub fn new() -> ScanEvent {
        ScanEvent { start: Event::new(), complete: Event::new(), error: Event::new() }
    }
}

} // verus!
