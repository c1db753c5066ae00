use csd_cleaner::file_info::FileInfo;
use csd_cleaner::incremental::{RescanMode, TreeMergeHealth};
use csd_cleaner::incremental_plan::{
    direct_refresh_applies, incremental_step, keep_cached_large_file, merge_is_critical, post_scan_delta_verdict,
    post_scan_window, rebuild_large_files, IncrementalAction, IncrementalEvent, IncrementalState, PostScanDelta,
    PostScanWindow, UsnCheckpoint,
};

fn file(path: &str, size: u64) -> FileInfo {
    FileInfo {
        path: path.to_string(),
        name: path.rsplit('\\').next().unwrap_or(path).to_string(),
        size,
        extension: String::new(),
        modified_at: String::new(),
        is_readonly: false,
        is_symlink: false,
        link_target: None,
    }
}

fn health(unique: usize, dup: usize, orphan: usize, inconsistent: usize) -> TreeMergeHealth {
    TreeMergeHealth {
        unique_dir_nodes: unique,
        duplicate_paths: dup,
        orphan_root_count: orphan,
        orphan_root_samples: Vec::new(),
        inconsistent_node_count: inconsistent,
        inconsistent_node_samples: Vec::new(),
    }
}

#[test]
fn journal_window_decisions() {
    let a = UsnCheckpoint { journal_id: 7, next_usn: 100 };
    let moved = UsnCheckpoint { journal_id: 7, next_usn: 150 };
    let rotated = UsnCheckpoint { journal_id: 8, next_usn: 150 };
    assert_eq!(post_scan_window(None, Some(a)), PostScanWindow::Complete);
    assert_eq!(post_scan_window(Some(a), Some(a)), PostScanWindow::Complete);
    assert_eq!(post_scan_window(Some(a), Some(moved)), PostScanWindow::ReadDelta);
    assert_eq!(
        post_scan_window(Some(a), Some(rotated)),
        PostScanWindow::Retry("usn_journal_rotated_during_scan".to_string())
    );
}

#[test]
fn journal_delta_verdicts() {
    assert_eq!(post_scan_delta_verdict(0, false), PostScanDelta::NoChanges);
    assert_eq!(post_scan_delta_verdict(0, true), PostScanDelta::Rescan);
    assert_eq!(post_scan_delta_verdict(2048, false), PostScanDelta::Rescan);
    assert_eq!(
        post_scan_delta_verdict(2048, true),
        PostScanDelta::TooLarge("post_scan_delta_too_large(2049)".to_string())
    );
}

#[test]
fn merge_choice_and_health() {
    assert!(direct_refresh_applies(0, &vec![RescanMode::DirectFilesOnly, RescanMode::DirectFilesOnly]));
    assert!(!direct_refresh_applies(1, &vec![RescanMode::DirectFilesOnly]));
    assert!(!direct_refresh_applies(0, &vec![RescanMode::DirectFilesOnly, RescanMode::Recursive]));
    assert!(!merge_is_critical(&health(1000, 0, 0, 50), 1005));
    assert!(merge_is_critical(&health(1000, 0, 0, 51), 1000));
    assert!(merge_is_critical(&health(1000, 1, 0, 0), 1000));
    assert!(merge_is_critical(&health(1000, 0, 1, 0), 1000));
    assert!(merge_is_critical(&health(1000, 0, 0, 0), 1011));
    assert!(!merge_is_critical(&health(10000, 0, 0, 100), 10000));
}

#[test]
fn incremental_scan_decisions() {
    let s = IncrementalState::AwaitingDetection;
    let nothing = IncrementalEvent::Detected { changes: 0, root_files_changed: false, cached_dirs: 10 };
    assert_eq!(incremental_step(s, nothing), (IncrementalState::Finished, IncrementalAction::UseCache));
    let many = IncrementalEvent::Detected { changes: 4, root_files_changed: false, cached_dirs: 10 };
    assert_eq!(incremental_step(s, many), (IncrementalState::Finished, IncrementalAction::FullScan));
    let some = IncrementalEvent::Detected { changes: 2, root_files_changed: true, cached_dirs: 10 };
    let (s, a) = incremental_step(s, some);
    assert_eq!((s, a), (IncrementalState::AwaitingCancelCheck, IncrementalAction::CheckCancellation));
    assert_eq!(
        incremental_step(s, IncrementalEvent::CancelChecked { cancelled: true }),
        (IncrementalState::Finished, IncrementalAction::Cancel)
    );
    let (s, a) = incremental_step(s, IncrementalEvent::CancelChecked { cancelled: false });
    assert_eq!((s, a), (IncrementalState::AwaitingRescan, IncrementalAction::RescanChanges));
    let (s, a) = incremental_step(s, IncrementalEvent::Rescanned { deleted: 1, modes: vec![RescanMode::DirectFilesOnly] });
    assert_eq!((s, a), (IncrementalState::AwaitingMerge, IncrementalAction::MergeTrees));
    assert_eq!(
        incremental_step(s, IncrementalEvent::Merged { health: health(5, 1, 0, 0), total_dirs: 5 }),
        (IncrementalState::Finished, IncrementalAction::FullScan)
    );
    assert_eq!(
        incremental_step(s, IncrementalEvent::Merged { health: health(5, 0, 0, 0), total_dirs: 5 }),
        (IncrementalState::Finished, IncrementalAction::Complete)
    );
    assert_eq!(
        incremental_step(s, IncrementalEvent::CancelChecked { cancelled: false }),
        (IncrementalState::AwaitingMerge, IncrementalAction::Nothing)
    );
}

#[test]
fn cached_large_files_outside_the_rescans_stay() {
    let deleted = vec!["c:\\scan\\gone".to_string()];
    let scopes = vec![
        ("c:\\scan\\deep".to_string(), RescanMode::Recursive),
        ("c:\\scan\\flat".to_string(), RescanMode::DirectFilesOnly),
    ];
    let root = "c:\\scan";
    assert!(!keep_cached_large_file("C:\\Scan\\Gone\\a.bin", &deleted, &scopes, root, false));
    assert!(!keep_cached_large_file("C:\\Scan\\Deep\\x\\b.bin", &deleted, &scopes, root, false));
    assert!(!keep_cached_large_file("C:\\Scan\\Flat\\c.bin", &deleted, &scopes, root, false));
    assert!(keep_cached_large_file("C:\\Scan\\Flat\\sub\\d.bin", &deleted, &scopes, root, false));
    assert!(keep_cached_large_file("C:\\Scan\\e.bin", &deleted, &scopes, root, false));
    assert!(!keep_cached_large_file("C:\\Scan\\e.bin", &deleted, &scopes, root, true));
    assert!(keep_cached_large_file("C:\\Scan\\Gonex\\f.bin", &deleted, &scopes, root, false));
}

#[test]
fn rebuilt_large_files_are_largest_first_and_stable() {
    let cached = vec![file("C:\\Scan\\Deep\\old.bin", 500), file("C:\\Scan\\keep.bin", 300), file("C:\\Scan\\top.bin", 700)];
    let scopes = vec![("c:\\scan\\deep".to_string(), RescanMode::Recursive)];
    let rescanned = vec![file("C:\\Scan\\Deep\\new.bin", 300)];
    let root_large = vec![file("C:\\Scan\\root.bin", 900)];
    let out = rebuild_large_files(&cached, &Vec::new(), &scopes, "c:\\scan", false, &rescanned, &root_large);
    let paths: Vec<&str> = out.iter().map(|f| f.path.as_str()).collect();
    assert_eq!(paths, vec!["C:\\Scan\\top.bin", "C:\\Scan\\keep.bin", "C:\\Scan\\Deep\\new.bin"]);
    let out = rebuild_large_files(&cached, &Vec::new(), &scopes, "c:\\scan", true, &rescanned, &root_large);
    let paths: Vec<&str> = out.iter().map(|f| f.path.as_str()).collect();
    assert_eq!(paths, vec!["C:\\Scan\\root.bin", "C:\\Scan\\Deep\\new.bin"]);
}
