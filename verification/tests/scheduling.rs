use csd_cleaner::app_paths::{
    get_migrations_db_path, get_scan_cache_db_path, get_space_history_db_path, join, test_intent_path,
};
use csd_cleaner::pending_intent::PendingScanIntent;
use csd_cleaner::scheduler::{
    default_target_disk, get_user_idle_seconds, is_on_ac_power, read_track_a_settings, tick_decision, CloseBehavior,
    ScanKind, SchedulerInner, SchedulerState, TrackASettings, FULL_INTERVAL_SECS, INCREMENTAL_INTERVAL_SECS,
};

#[test]
fn settings_read_with_defaults_and_floor() {
    let s = read_track_a_settings(None, None, None);
    assert_eq!(s.close_behavior, CloseBehavior::Exit);
    assert!(s.scheduler_enabled);
    assert_eq!(s.scheduler_idle_minutes, 5);
    let s = read_track_a_settings(Some("tray"), Some(false), Some(0));
    assert_eq!(s.close_behavior, CloseBehavior::Tray);
    assert!(!s.scheduler_enabled);
    assert_eq!(s.scheduler_idle_minutes, 1);
    let s = read_track_a_settings(Some("exit"), None, Some(12));
    assert_eq!(s.close_behavior, CloseBehavior::Exit);
    assert_eq!(s.scheduler_idle_minutes, 12);
}

#[test]
fn target_disk_falls_back_to_c() {
    assert_eq!(default_target_disk(None), "C:\\");
    assert_eq!(default_target_disk(Some("")), "C:\\");
    assert_eq!(default_target_disk(Some("D:\\")), "D:\\");
}

fn settings() -> TrackASettings {
    TrackASettings { close_behavior: CloseBehavior::Exit, scheduler_enabled: true, scheduler_idle_minutes: 5 }
}

#[test]
fn first_tick_runs_a_full_scan_when_idle_on_power() {
    let inner = SchedulerInner { last_incremental: None, last_full: None };
    assert_eq!(tick_decision(&settings(), &inner, 1_000_000, true, 300), Some(ScanKind::Full));
    assert_eq!(tick_decision(&settings(), &inner, 1_000_000, true, 299), None);
    assert_eq!(tick_decision(&settings(), &inner, 1_000_000, false, 10_000), None);
    let off = TrackASettings { scheduler_enabled: false, ..settings() };
    assert_eq!(tick_decision(&off, &inner, 1_000_000, true, 10_000), None);
}

#[test]
fn incremental_runs_when_only_it_is_due() {
    let now = 10_000_000u64;
    let inner = SchedulerInner { last_incremental: Some(now - INCREMENTAL_INTERVAL_SECS), last_full: Some(now - 100_000) };
    assert_eq!(tick_decision(&settings(), &inner, now, true, 600), Some(ScanKind::Incremental));
    let inner = SchedulerInner { last_incremental: Some(now - 100), last_full: Some(now - 100_000) };
    assert_eq!(tick_decision(&settings(), &inner, now, true, 600), None);
    let inner = SchedulerInner { last_incremental: Some(now - 100), last_full: Some(now - FULL_INTERVAL_SECS) };
    assert_eq!(tick_decision(&settings(), &inner, now, true, 600), Some(ScanKind::Full));
}

#[test]
fn no_scan_right_after_a_scan() {
    let mut state = SchedulerState::new();
    state.record_scan_done(ScanKind::Full, 5_000_000);
    assert_eq!(state.inner.last_full, Some(5_000_000));
    assert_eq!(state.inner.last_incremental, Some(5_000_000));
    assert_eq!(tick_decision(&settings(), &state.inner, 5_000_010, true, 100_000), None);
    let status = state.status(true);
    assert_eq!(status.next_scheduled, Some(5_000_000 + INCREMENTAL_INTERVAL_SECS));
    assert!(status.enabled);
}

#[test]
fn idle_seconds_survive_tick_wraparound() {
    assert_eq!(get_user_idle_seconds(Some(1_000), 61_000), 60);
    assert_eq!(get_user_idle_seconds(Some(u32::MAX - 999), 1_000), 2);
    assert_eq!(get_user_idle_seconds(None, 5), 0);
    assert!(is_on_ac_power(Some(1)));
    assert!(is_on_ac_power(Some(255)));
    assert!(!is_on_ac_power(Some(0)));
    assert!(is_on_ac_power(None));
}

#[test]
fn data_files_sit_in_the_data_directory() {
    assert_eq!(get_scan_cache_db_path("C:\\Data"), "C:\\Data\\scan_cache.db");
    assert_eq!(get_migrations_db_path("C:\\Data\\"), "C:\\Data\\migrations.db");
    assert_eq!(get_space_history_db_path("D:"), "D:space_history.db");
    assert_eq!(test_intent_path("C:\\Data"), "C:\\Data\\pending_scan.json");
    assert_eq!(join("", "x"), "x");
}

#[test]
fn an_intent_expires_after_ten_minutes_or_when_the_clock_goes_back() {
    let intent = PendingScanIntent::new("D:\\".to_string(), true, 1_000, 500);
    assert!(!intent.is_expired(1_000, 500));
    assert!(!intent.is_expired(1_600, 500));
    assert!(intent.is_expired(1_600, 501));
    assert!(intent.is_expired(999, 999_999_999));
    assert_eq!(intent.disk, "D:\\");
    assert!(intent.requested_with_elevation);
}
