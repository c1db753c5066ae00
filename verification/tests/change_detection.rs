use csd_cleaner::change_detect::{cached_root_totals, detect_level_changes, summarize_changes, DirEntryInfo, EntryOutcome};
use csd_cleaner::disk_scanner::DiskScanner;
use csd_cleaner::env_fingerprint::EnvFingerprint;
use csd_cleaner::file_info::{DirectoryNode, ScanResult};
use csd_cleaner::incremental::{ChangeStatus, ChangedDirectory, RescanMode};

fn node(path: &str, modified: Option<u64>) -> DirectoryNode {
    DirectoryNode {
        path: path.to_string(),
        name: path.rsplit('\\').next().unwrap().to_string(),
        size: 10,
        file_count: 1,
        dir_count: 0,
        children: vec![],
        has_children: false,
        is_symlink: false,
        link_target: None,
        safety: None,
        modified_time: modified,
        file_id: None,
    }
}

fn entry(path: &str, is_directory: bool, modified: Option<u64>) -> DirEntryInfo {
    DirEntryInfo { path: path.to_string(), is_directory, modified }
}

#[test]
fn a_level_reports_new_modified_unchanged_and_gone_directories() {
    let cached = vec![
        node("C:\\root\\same", Some(1_000)),
        node("C:\\root\\touched", Some(1_000)),
        node("C:\\root\\gone", Some(1_000)),
        node("C:\\root", Some(1_000)),
    ];
    let entries = vec![
        entry("C:\\root\\Same", true, Some(1_000)),
        entry("C:\\root\\touched", true, Some(2_000)),
        entry("C:\\root\\fresh", true, Some(3_000)),
        entry("C:\\root\\file.txt", false, Some(3_000)),
    ];
    let (outcomes, gone) = detect_level_changes(&cached, "C:\\root", &entries, 10_000);
    assert_eq!(
        outcomes,
        vec![
            EntryOutcome::Descend(0),
            EntryOutcome::Changed(ChangeStatus::Modified),
            EntryOutcome::Changed(ChangeStatus::New),
            EntryOutcome::Skip,
        ]
    );
    assert_eq!(gone, vec![2]);
}

#[test]
fn a_time_slightly_behind_the_cache_counts_as_unchanged() {
    let cached = vec![node("C:\\r\\a", Some(1_000)), node("C:\\r\\b", Some(1_000))];
    let entries = vec![entry("C:\\r\\a", true, Some(950)), entry("C:\\r\\b", true, Some(900))];
    let (outcomes, gone) = detect_level_changes(&cached, "C:\\r", &entries, 10_000);
    assert_eq!(outcomes, vec![EntryOutcome::Descend(0), EntryOutcome::Changed(ChangeStatus::Modified)]);
    assert!(gone.is_empty());
}

#[test]
fn a_time_far_in_the_future_is_a_change() {
    let cached = vec![node("C:\\r\\a", Some(100_000))];
    let entries = vec![entry("C:\\r\\a", true, Some(100_000))];
    let (outcomes, _) = detect_level_changes(&cached, "C:\\r", &entries, 1_000);
    assert_eq!(outcomes, vec![EntryOutcome::Changed(ChangeStatus::Modified)]);
}

fn scan_result(root: &str, total: u64) -> ScanResult {
    ScanResult {
        root_path: root.to_string(),
        total_size: total,
        system_reserved_bytes: 0,
        total_files: 1,
        total_dirs: 1,
        scan_duration_ms: 5,
        directories: vec![],
        large_files: vec![],
        inaccessible_count: 0,
        scan_backend: None,
        root_file_id: None,
        usn_journal_id: None,
        usn_next_usn: None,
        cache_schema_version: 1,
        env_fingerprint: EnvFingerprint {
            volume_serial: None,
            file_system: String::new(),
            is_elevated: false,
            user_sid: None,
            app_version: String::new(),
            rule_version: 1,
        },
        scan_completed: true,
    }
}

#[test]
fn with_indexed_reads_the_kept_scan() {
    let mut scanner = DiskScanner::new();
    assert_eq!(scanner.with_indexed("C:\\", |ix| ix.total_size()), None);
    scanner.store_indexed_scan_result(&scan_result("C:\\", 1234));
    assert_eq!(scanner.with_indexed("C:\\", |ix| ix.total_size()), Some(1234));
    assert_eq!(scanner.with_indexed("D:\\", |ix| ix.total_size()), None);
    scanner.store_indexed_scan_result(&scan_result("C:\\", 99));
    assert_eq!(scanner.with_indexed("C:\\", |ix| ix.total_size()), Some(99));
}

#[test]
fn root_totals_come_from_the_root_node() {
    let mut root = node("C:\\Data\\", None);
    root.size = 77;
    root.file_count = 3;
    let dirs = vec![node("C:\\Data\\a", None), root];
    assert_eq!(cached_root_totals(&dirs, "c:/data"), (77, 3));
    assert_eq!(cached_root_totals(&dirs, "D:\\"), (0, 0));
}

#[test]
fn changes_split_into_rescans_and_deletions() {
    let change = |p: &str, status: ChangeStatus| ChangedDirectory { path: p.to_string(), status, mode: RescanMode::Recursive };
    let changes = vec![
        change("C:\\a", ChangeStatus::Modified),
        change("C:\\b", ChangeStatus::Deleted),
        change("C:\\c", ChangeStatus::New),
        change("C:\\d", ChangeStatus::Deleted),
    ];
    let summary = summarize_changes(&changes, true);
    assert_eq!(summary.rescan, vec![0, 2]);
    assert_eq!(summary.deleted_paths, vec!["C:\\b".to_string(), "C:\\d".to_string()]);
    assert_eq!(summary.total_changes, 5);
    assert_eq!(summarize_changes(&changes, false).total_changes, 4);
}
