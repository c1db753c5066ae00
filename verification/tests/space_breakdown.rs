use csd_cleaner::env_fingerprint::EnvFingerprint;
use csd_cleaner::explain::{explain_path, ExplainEngine, ExplainRule, MatchMode, UNKNOWN_EXPLANATION};
use csd_cleaner::file_info::{DirectoryNode, FileInfo, ScanResult};
use csd_cleaner::safety::{Finding, MigrationSafety, Severity, Verdict};
use csd_cleaner::scan_index::IndexedScanResult;
use csd_cleaner::space_breakdown::{
    analyze_space_breakdown, balance_candidates, breakdown_of, classify_path, get_relocatable_programs,
    identify_program_type, is_collection_root, relocatable_candidates, suggest_balance, user_profile_lower, DiskInfo,
    SpaceCategory,
};

/// An engine over a rule table of the shipped kind: browser caches are
/// explained by substring.
fn shipped_engine() -> ExplainEngine {
    ExplainEngine::new(vec![ExplainRule {
        pattern: "\\google\\chrome\\user data\\".to_string(),
        match_mode: MatchMode::Contains,
        explanation: "Google Chrome 浏览器缓存，删除后会自动重建".to_string(),
        app_name: Some("Google Chrome".to_string()),
        safe_to_delete: true,
        will_regenerate: true,
    }])
    .expect("engine")
}

#[test]
fn explain_path_returns_known_chrome_cache() {
    let engine = shipped_engine();
    let result = explain_path(
        &engine,
        "C:\\Users\\Test\\AppData\\Local\\Google\\Chrome\\User Data\\Default\\Cache\\data_0",
    );
    assert!(result.explanation.contains("Chrome"));
    assert!(result.safe_to_delete);
}

#[test]
fn explain_path_returns_known_windows_system_paths() {
    let engine = shipped_engine();
    let paths = ["C:\\Windows", "C:\\pagefile.sys", "C:\\hiberfil.sys", "C:\\System Volume Information", "C:\\$Recycle.Bin"];
    for path in paths {
        let result = explain_path(&engine, path);
        assert_ne!(result.explanation, "未识别的文件或目录", "path: {path}");
        assert_eq!(result.app_name.as_deref(), Some("Windows"), "path: {path}");
        assert!(!result.safe_to_delete, "path: {path}");
    }
}

#[test]
fn explain_path_returns_unknown_for_random_path() {
    let engine = shipped_engine();
    let result = explain_path(&engine, "D:\\SomeRandomFolder_XYZ123\\nothing_here.qzx");
    assert_eq!(result.explanation, "未识别的文件或目录");
    assert!(!result.safe_to_delete);
}

fn rule(pattern: &str, mode: MatchMode, text: &str, safe: bool) -> ExplainRule {
    ExplainRule {
        pattern: pattern.to_string(),
        match_mode: mode,
        explanation: text.to_string(),
        app_name: Some("App".to_string()),
        safe_to_delete: safe,
        will_regenerate: safe,
    }
}

#[test]
fn substring_rules_win_in_table_order_then_prefix_then_suffix() {
    let engine = ExplainEngine::new(vec![
        rule("c:\\data", MatchMode::StartsWith, "prefix", false),
        rule("\\cache\\", MatchMode::Contains, "first substring", true),
        rule(".tmp", MatchMode::EndsWith, "suffix", true),
        rule("\\chrome\\", MatchMode::Contains, "second substring", false),
    ])
    .expect("engine");
    let e = explain_path(&engine, "C:/Data/Chrome/Cache/x.tmp");
    assert_eq!(e.explanation, "first substring");
    assert!(e.safe_to_delete);
    assert_eq!(explain_path(&engine, "C:\\Data\\x.tmp").explanation, "prefix");
    assert_eq!(explain_path(&engine, "D:\\x.TMP").explanation, "suffix");
    assert_eq!(explain_path(&engine, "D:\\x.bin").explanation, UNKNOWN_EXPLANATION);
    assert_eq!(explain_path(&engine, "C:\\Windows").app_name.as_deref(), Some("Windows"));
}

#[test]
fn paths_fall_in_their_categories() {
    let up = user_profile_lower(Some("C:/Users/Test"));
    assert_eq!(up, "c:\\users\\test");
    assert_eq!(user_profile_lower(None), "c:\\users\\default");
    assert_eq!(classify_path("c:\\windows\\system32", &up), SpaceCategory::System);
    assert_eq!(classify_path("c:\\program files\\steam\\steamapps\\common", &up), SpaceCategory::Games);
    assert_eq!(classify_path("c:\\program files\\app", &up), SpaceCategory::Programs);
    assert_eq!(classify_path("c:\\users\\test\\documents", &up), SpaceCategory::UserData);
    assert_eq!(classify_path("c:\\users\\test\\documentsx", &up), SpaceCategory::AppData);
    assert_eq!(classify_path("c:\\users\\test\\appdata\\local\\temp", &up), SpaceCategory::Temp);
    assert_eq!(classify_path("c:\\users\\test\\appdata\\local\\x\\cache", &up), SpaceCategory::AppCache);
    assert_eq!(classify_path("d:\\src\\node_modules", &up), SpaceCategory::DevTools);
    assert_eq!(classify_path("c:\\users\\test\\.vscode", &up), SpaceCategory::AppData);
    assert_eq!(classify_path("c:\\intel", &up), SpaceCategory::Temp);
    assert_eq!(classify_path("d:\\movies", &up), SpaceCategory::Other);
}

#[test]
fn collection_roots_and_program_kinds() {
    assert!(is_collection_root("C:/Program Files/"));
    assert!(is_collection_root("c:\\users"));
    assert!(!is_collection_root("C:\\Program Files\\App"));
    assert_eq!(identify_program_type("JetBrains", "safe"), "ide");
    assert_eq!(identify_program_type("Steam", "safe"), "game");
    assert_eq!(identify_program_type("LibreOffice", "safe"), "office");
    assert_eq!(identify_program_type("Microsoft Update Health", "blocked"), "system");
    assert_eq!(identify_program_type("Microsoft Update Health", "safe"), "other");
}

fn dir(path: &str, name: &str, size: u64, children: Vec<DirectoryNode>) -> DirectoryNode {
    DirectoryNode {
        path: path.to_string(),
        name: name.to_string(),
        size,
        file_count: 1,
        dir_count: children.len(),
        has_children: !children.is_empty(),
        children,
        is_symlink: false,
        link_target: None,
        safety: None,
        modified_time: None,
        file_id: None,
    }
}

fn file(path: &str, name: &str, size: u64) -> FileInfo {
    FileInfo {
        path: path.to_string(),
        name: name.to_string(),
        size,
        extension: String::new(),
        modified_at: String::new(),
        is_readonly: false,
        is_symlink: false,
        link_target: None,
    }
}

fn volume() -> IndexedScanResult {
    let users = dir(
        "C:\\Users",
        "Users",
        600,
        vec![dir("C:\\Users\\Test", "Test", 600, vec![dir("C:\\Users\\Test\\Documents", "Documents", 400, vec![]), dir("C:\\Users\\Test\\AppData", "AppData", 200, vec![])])],
    );
    let programs = dir(
        "C:\\Program Files",
        "Program Files",
        300,
        vec![
            dir("C:\\Program Files\\App", "App", 100, vec![]),
            dir("C:\\Program Files\\WindowsApps", "WindowsApps", 50, vec![]),
            dir("C:\\Program Files\\Big", "Big", 150, vec![]),
        ],
    );
    let root_files = dir("C:\\", "根目录文件", 1000, vec![]);
    let result = ScanResult {
        root_path: "C:\\".to_string(),
        total_size: 1900,
        system_reserved_bytes: 0,
        total_files: 3,
        total_dirs: 6,
        scan_duration_ms: 0,
        directories: vec![users, programs, root_files],
        large_files: vec![file("C:\\pagefile.sys", "pagefile.sys", 800), file("C:\\Users\\x.bin", "x.bin", 5)],
        inaccessible_count: 0,
        scan_backend: None,
        root_file_id: None,
        usn_journal_id: None,
        usn_next_usn: None,
        cache_schema_version: 0,
        env_fingerprint: EnvFingerprint::default(),
        scan_completed: true,
    };
    IndexedScanResult::from_scan_result(&result)
}

#[test]
fn breakdown_sorts_the_volume_into_categories() {
    let ix = volume();
    let engine = ExplainEngine::new(vec![]).expect("engine");
    let b = breakdown_of(&ix, 5000, 2500, "c:\\users\\test", &engine, 7);
    assert_eq!(b.disk_free, 2500);
    assert_eq!(b.system_reserved_bytes, 600);
    assert_eq!(b.analysis_duration_ms, 7);
    assert_eq!(b.categories.len(), 10);
    let ids: Vec<&str> = b.categories.iter().map(|c| c.id.as_str()).collect();
    assert_eq!(ids[0], "system");
    let system = &b.categories[0];
    assert_eq!(system.size, 800);
    assert_eq!(system.top_items[0].name, "pagefile.sys");
    assert_eq!(system.top_items[0].item_type, "file");
    let size_of = |id: &str| b.categories.iter().find(|c| c.id == id).unwrap().size;
    assert_eq!(size_of("system_reserved"), 600);
    assert_eq!(size_of("user_data"), 400);
    assert_eq!(size_of("app_data"), 200);
    assert_eq!(size_of("programs"), 300);
    assert_eq!(size_of("other"), 200);
    for w in b.categories.windows(2) {
        assert!(w[0].size >= w[1].size);
    }
    let other = b.categories.iter().find(|c| c.id == "other").unwrap();
    assert_eq!(other.top_items[0].name, "根目录其他文件");
    assert_eq!(b.actionable_total, 150 + 100);
    let timed = analyze_space_breakdown(&ix, 5000, 2500, "c:\\users\\test", &engine);
    assert_eq!(timed.categories.len(), 10);
}

fn safety(verdict: Verdict, can_migrate: bool, message: Option<&str>) -> MigrationSafety {
    MigrationSafety {
        verdict,
        can_migrate,
        findings: message
            .map(|m| vec![Finding { gate: "g".to_string(), severity: Severity::Warning, message: m.to_string(), detail: None }])
            .unwrap_or_default(),
        required_actions: vec![],
        app_type: String::new(),
        analysis_duration_ms: 0,
        gate_durations_ms: vec![],
    }
}

#[test]
fn relocatable_programs_skip_store_packages_and_sort_by_size() {
    let ix = volume();
    let cands = relocatable_candidates(&ix);
    let names: Vec<&str> = cands.iter().map(|c| c.name.as_str()).collect();
    assert_eq!(names, vec!["App", "Big"]);
    let progs = get_relocatable_programs(&ix, &vec![safety(Verdict::Safe, true, None), safety(Verdict::Blocked, false, Some("busy"))]);
    assert_eq!(progs[0].name, "Big");
    assert_eq!(progs[0].verdict, "blocked");
    assert_eq!(progs[0].verdict_reason, "busy");
    assert!(!progs[0].can_migrate);
    assert_eq!(progs[1].name, "App");
    assert_eq!(progs[1].verdict_reason, "无已知风险");
}

#[test]
fn balance_moves_allowed_items_to_the_freest_other_disk() {
    let ix = volume();
    let engine = ExplainEngine::new(vec![]).expect("engine");
    let b = breakdown_of(&ix, 5000, 2500, "c:\\users\\test", &engine, 0);
    let offers = balance_candidates(&b);
    let safeties: Vec<MigrationSafety> = offers.iter().map(|_| safety(Verdict::Safe, true, None)).collect();
    let disks = vec![
        DiskInfo { drive_letter: "c:".to_string(), used_space: 2500, free_space: 9000 },
        DiskInfo { drive_letter: "D:".to_string(), used_space: 10, free_space: 120 },
        DiskInfo { drive_letter: "E:".to_string(), used_space: 20, free_space: 120 },
    ];
    let plan = suggest_balance(&disks, &b, &safeties);
    assert_eq!(plan.target_disk, "E:\\");
    assert_eq!(plan.current_target_used, 20);
    let total: u64 = plan.suggested_items.iter().map(|i| i.size).sum();
    assert_eq!(plan.total_movable, total.min(120));
    assert_eq!(plan.projected_target_used, 20 + plan.total_movable);
    for w in plan.suggested_items.windows(2) {
        assert!(w[0].priority < w[1].priority || (w[0].priority == w[1].priority && w[0].size >= w[1].size));
    }
}
