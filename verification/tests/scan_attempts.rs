use csd_cleaner::scan_attempts::{
    scan_attempt_step, ScanAttemptAction, ScanAttemptEvent, ScanAttemptState, MAX_POST_SCAN_RETRIES,
};

#[test]
fn unreadable_volume_gives_up_before_any_pass() {
    let (s, a) = scan_attempt_step(
        ScanAttemptState::Preparing,
        ScanAttemptEvent::Prepared { supported: true, root_file_id_found: false, volume_found: true },
    );
    assert_eq!(s, ScanAttemptState::Finished);
    assert_eq!(a, ScanAttemptAction::GiveUp);
}

#[test]
fn journal_retry_runs_one_more_pass_then_keeps_latest() {
    let (s, a) = scan_attempt_step(
        ScanAttemptState::Preparing,
        ScanAttemptEvent::Prepared { supported: true, root_file_id_found: true, volume_found: true },
    );
    assert_eq!(a, ScanAttemptAction::RunPass { attempt: 0 });
    let (s, a) = scan_attempt_step(s, ScanAttemptEvent::PassEnded { produced: true });
    assert_eq!(a, ScanAttemptAction::Reconcile);
    let (s, a) = scan_attempt_step(s, ScanAttemptEvent::Reconciled { complete: false });
    assert_eq!(a, ScanAttemptAction::CheckCancellation);
    let (s, a) = scan_attempt_step(s, ScanAttemptEvent::CancelChecked { cancelled: false });
    assert_eq!(a, ScanAttemptAction::RunPass { attempt: 1 });
    assert_eq!(MAX_POST_SCAN_RETRIES, 1);
    let (s, a) = scan_attempt_step(s, ScanAttemptEvent::PassEnded { produced: true });
    assert_eq!(a, ScanAttemptAction::Reconcile);
    let (s, a) = scan_attempt_step(s, ScanAttemptEvent::Reconciled { complete: false });
    assert_eq!(s, ScanAttemptState::Finished);
    assert_eq!(a, ScanAttemptAction::KeepResult);
}

#[test]
fn cancellation_between_passes_stops_the_scan() {
    let (s, a) = scan_attempt_step(
        ScanAttemptState::Reconciling { attempt: 0 },
        ScanAttemptEvent::Reconciled { complete: false },
    );
    assert_eq!(a, ScanAttemptAction::CheckCancellation);
    let (s, a) = scan_attempt_step(s, ScanAttemptEvent::CancelChecked { cancelled: true });
    assert_eq!(s, ScanAttemptState::Finished);
    assert_eq!(a, ScanAttemptAction::Cancel);
}

#[test]
fn complete_window_keeps_first_pass_and_stray_events_do_nothing() {
    let (s, a) = scan_attempt_step(
        ScanAttemptState::Reconciling { attempt: 0 },
        ScanAttemptEvent::Reconciled { complete: true },
    );
    assert_eq!(s, ScanAttemptState::Finished);
    assert_eq!(a, ScanAttemptAction::KeepResult);
    let (s2, a2) = scan_attempt_step(s, ScanAttemptEvent::PassEnded { produced: true });
    assert_eq!(s2, ScanAttemptState::Finished);
    assert_eq!(a2, ScanAttemptAction::Nothing);
}
