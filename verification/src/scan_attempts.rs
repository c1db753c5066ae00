//! The decisions of a direct volume scan: whether the volume can be read
//! directly at all, and how often a pass is run again when the change
//! journal moved while it ran. The outside work (the volume checks, the
//! pass itself, the journal reconcile, reading the cancellation signal) is
//! done by the caller, which hands back what it saw as an event.
use vstd::prelude::*;

verus! {

/// How many times a pass is run again when its journal window asks for it.
pub const MAX_POST_SCAN_RETRIES: usize = 1;

/// Where a direct volume scan stands between its outside steps.
#[derive(Debug, Clone, Copy, PartialEq, Eq, Structural)]
pub enum ScanAttemptState {
    /// The volume is being checked: direct reading supported, the scan
    /// root's file id, the volume's details.
    Preparing,
    /// Pass number `attempt` (counted from zero) is running.
    Scanning { attempt: usize },
    /// The journal window of pass `attempt` is being reconciled.
    Reconciling { attempt: usize },
    /// The cancellation signal is read before pass `next_attempt`.
    AwaitingCancelCheck { next_attempt: usize },
    /// The scan has decided how it ends.
    Finished,
}

/// What an outside step of the scan reports.
#[derive(Debug, Clone, Copy, PartialEq, Eq, Structural)]
pub enum ScanAttemptEvent {
    /// The volume checks came back.
    Prepared { supported: bool, root_file_id_found: bool, volume_found: bool },
    /// A pass ended; `produced` is false when it gave nothing (the volume
    /// could not be read, or the scan was cancelled before the pass).
    PassEnded { produced: bool },
    /// The journal window was judged: `complete` when the pass stands,
    /// false when it asks for another pass.
    Reconciled { complete: bool },
    /// The cancellation signal was read.
    CancelChecked { cancelled: bool },
}

/// What the scan does next.
#[derive(Debug, Clone, Copy, PartialEq, Eq, Structural)]
pub enum ScanAttemptAction {
    /// The volume cannot be scanned directly: the scan gives no result.
    GiveUp,
    /// Run pass number `attempt`.
    RunPass { attempt: usize },
    /// Reconcile the journal window of the pass that just ended.
    Reconcile,
    /// Keep the result of the latest pass.
    KeepResult,
    /// Read the cancellation signal.
    CheckCancellation,
    /// Stop with the cancellation error.
    Cancel,
    /// The event does not belong to this state: nothing to do.
    Nothing,
}

/// The next state and action of the scan for an event.
pub open spec fn scan_attempt_step_spec(state: ScanAttemptState, event: ScanAttemptEvent) -> (ScanAttemptState, ScanAttemptAction) {
    match (state, event) {
        (
            ScanAttemptState::Preparing,
            ScanAttemptEvent::Prepared { supported, root_file_id_found, volume_found },
        ) => if supported && root_file_id_found && volume_found {
            (ScanAttemptState::Scanning { attempt: 0 }, ScanAttemptAction::RunPass { attempt: 0 })
        } else {
            (ScanAttemptState::Finished, ScanAttemptAction::GiveUp)
        },
        (ScanAttemptState::Scanning { attempt }, ScanAttemptEvent::PassEnded { produced }) => if produced {
            (ScanAttemptState::Reconciling { attempt }, ScanAttemptAction::Reconcile)
        } else {
            (ScanAttemptState::Finished, ScanAttemptAction::GiveUp)
        },
        (ScanAttemptState::Reconciling { attempt }, ScanAttemptEvent::Reconciled { complete }) => if complete
            || attempt >= MAX_POST_SCAN_RETRIES {
            (ScanAttemptState::Finished, ScanAttemptAction::KeepResult)
        } else {
            (
                ScanAttemptState::AwaitingCancelCheck { next_attempt: (attempt + 1) as usize },
                ScanAttemptAction::CheckCancellation,
            )
        },
        (ScanAttemptState::AwaitingCancelCheck { next_attempt }, ScanAttemptEvent::CancelChecked { cancelled }) => if cancelled {
            (ScanAttemptState::Finished, ScanAttemptAction::Cancel)
        } else {
            (ScanAttemptState::Scanning { attempt: next_attempt }, ScanAttemptAction::RunPass { attempt: next_attempt })
        },
        _ => (state, ScanAttemptAction::Nothing),
    }
}

/// One decision of the scan: with the volume readable it runs pass 0; a
/// pass that gave nothing ends the scan without a result; a pass whose
/// journal window stands is kept; one that asks for another pass is run
/// again after a cancellation check, at most [`MAX_POST_SCAN_RETRIES`]
/// times, after which the latest pass is kept as it is.
pub fn scan_attempt_step(state: ScanAttemptState, event: ScanAttemptEvent) -> (r: (ScanAttemptState, ScanAttemptAction))
    ensures
        r == scan_attempt_step_spec(state, event),
{
    match state {
        ScanAttemptState::Preparing => match event {
            ScanAttemptEvent::Prepared { supported, root_file_id_found, volume_found } => {
                if supported && root_file_id_found && volume_found {
                    (ScanAttemptState::Scanning { attempt: 0 }, ScanAttemptAction::RunPass { attempt: 0 })
                } else {
                    (ScanAttemptState::Finished, ScanAttemptAction::GiveUp)
                }
            },
            _ => (state, ScanAttemptAction::Nothing),
        },
        ScanAttemptState::Scanning { attempt } => match event {
            ScanAttemptEvent::PassEnded { produced } => {
                if produced {
                    (ScanAttemptState::Reconciling { attempt }, ScanAttemptAction::Reconcile)
                } else {
                    (ScanAttemptState::Finished, ScanAttemptAction::GiveUp)
                }
            },
            _ => (state, ScanAttemptAction::Nothing),
        },
        ScanAttemptState::Reconciling { attempt } => match event {
            ScanAttemptEvent::Reconciled { complete } => {
                if complete || attempt >= MAX_POST_SCAN_RETRIES {
                    (ScanAttemptState::Finished, ScanAttemptAction::KeepResult)
                } else {
                    (
                        ScanAttemptState::AwaitingCancelCheck { next_attempt: attempt + 1 },
                        ScanAttemptAction::CheckCancellation,
                    )
                }
            },
            _ => (state, ScanAttemptAction::Nothing),
        },
        ScanAttemptState::AwaitingCancelCheck { next_attempt } => match event {
            ScanAttemptEvent::CancelChecked { cancelled } => {
                if cancelled {
                    (ScanAttemptState::Finished, ScanAttemptAction::Cancel)
                } else {
                    (
                        ScanAttemptState::Scanning { attempt: next_attempt },
                        ScanAttemptAction::RunPass { attempt: next_attempt },
                    )
                }
            },
            _ => (state, ScanAttemptAction::Nothing),
        },
        ScanAttemptState::Finished => (state, ScanAttemptAction::Nothing),
    }
}

/// No pass number beyond [`MAX_POST_SCAN_RETRIES`] is ever reached.
pub open spec fn attempts_bounded(state: ScanAttemptState) -> bool {
    match state {
        ScanAttemptState::Scanning { attempt } => attempt <= MAX_POST_SCAN_RETRIES,
        ScanAttemptState::Reconciling { attempt } => attempt <= MAX_POST_SCAN_RETRIES,
        ScanAttemptState::AwaitingCancelCheck { next_attempt } => 1 <= next_attempt <= MAX_POST_SCAN_RETRIES,
        _ => true,
    }
}

/// A scan runs at most one pass more than [`MAX_POST_SCAN_RETRIES`]: from
/// a state within the bound every step leads to a state within it, and
/// every pass it asks for is numbered within it.
pub proof fn law_attempts_stay_bounded(state: ScanAttemptState, event: ScanAttemptEvent)
    requires
        attempts_bounded(state),
    ensures
        attempts_bounded(scan_attempt_step_spec(state, event).0),
        scan_attempt_step_spec(state, event).1 matches ScanAttemptAction::RunPass { attempt } ==> attempt
            <= MAX_POST_SCAN_RETRIES,
{
}

/// Once finished, a scan stays finished and does nothing more.
pub proof fn law_finished_is_final(event: ScanAttemptEvent)
    ensures
        scan_attempt_step_spec(ScanAttemptState::Finished, event) == (
            ScanAttemptState::Finished,
            ScanAttemptAction::Nothing,
        ),
{
}

} // verus!
