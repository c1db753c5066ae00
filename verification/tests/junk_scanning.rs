use csd_cleaner::cleanup::{
    delete_mode_for, finish_delete, missing_path_result, recycled_file_count, CleanTally, DeleteError, DeleteMode,
};
use csd_cleaner::junk_scan::{
    category_label, dedupe_items_by_path, finish_junk_scan, glob_candidate, matches_any_pattern, rule_item, select_rules,
    should_replace_item, simple_glob, split_path_glob, walk_step, JunkItem, PathGlob, WalkStep,
};
use csd_cleaner::rules::{JunkCategory, JunkRiskLevel, JunkRule};

#[test]
fn glob_exact_match() {
    assert!(simple_glob("foo.txt", "foo.txt"));
    assert!(!simple_glob("foo.txt", "bar.txt"));
}

#[test]
fn glob_prefix_suffix() {
    assert!(simple_glob("thumbcache_32.db", "thumbcache_*.db"));
    assert!(simple_glob("a.log", "*.log"));
    assert!(simple_glob("setup.exe", "setup.*"));
    assert!(!simple_glob("a.txt", "*.log"));
}

#[test]
fn glob_star_only() {
    assert!(simple_glob("anything", "*"));
    assert!(simple_glob("", "*"));
}

#[test]
fn glob_middle() {
    assert!(simple_glob("foo_v1_bar.tmp", "foo_*_bar.tmp"));
    assert!(!simple_glob("foo_bar.tmp", "foo_*_baz.tmp"));
}

#[test]
fn glob_is_case_sensitive_and_needs_the_whole_name() {
    assert!(!simple_glob("THUMBCACHE_1.DB", "thumbcache_*.db"));
    assert!(!simple_glob("a.log.bak", "*.log"));
    assert!(simple_glob("a_b_c", "a*b*c"));
    assert!(!simple_glob("abc", "abcd"));
}

fn rule(id: &str, category: JunkCategory, requires_admin: bool) -> JunkRule {
    JunkRule {
        id: id.to_string(),
        category,
        name: id.to_string(),
        description: String::new(),
        paths: vec![],
        patterns: vec![],
        risk_level: JunkRiskLevel::Safe,
        requires_admin,
        default_selected: true,
        clean_subdirs_only: false,
        max_depth: None,
        why_safe: None,
    }
}

#[test]
fn rules_needing_admin_are_skipped_without_it() {
    let rules = vec![
        rule("temp", JunkCategory::SystemTemp, false),
        rule("update", JunkCategory::WindowsUpdate, true),
        rule("logs", JunkCategory::AppLogs, false),
    ];
    let (picked, skipped) = select_rules(&rules, &None, false);
    assert_eq!(picked, vec![0, 2]);
    assert_eq!(skipped, vec!["update".to_string()]);
    let (picked, skipped) = select_rules(&rules, &None, true);
    assert_eq!(picked, vec![0, 1, 2]);
    assert!(skipped.is_empty());
}

#[test]
fn category_filter_keeps_only_the_asked_categories() {
    let rules = vec![
        rule("temp", JunkCategory::SystemTemp, false),
        rule("update", JunkCategory::WindowsUpdate, true),
        rule("logs", JunkCategory::AppLogs, false),
    ];
    let (picked, skipped) = select_rules(&rules, &Some(vec![JunkCategory::WindowsUpdate]), false);
    assert!(picked.is_empty());
    assert_eq!(skipped, vec!["update".to_string()]);
    let (picked, _) = select_rules(&rules, &Some(vec![JunkCategory::AppLogs, JunkCategory::SystemTemp]), false);
    assert_eq!(picked, vec![0, 2]);
}

fn item(path: &str, size: u64, risk: JunkRiskLevel, rule_id: &str) -> JunkItem {
    JunkItem {
        rule_id: rule_id.to_string(),
        category: JunkCategory::SystemTemp,
        category_name: category_label(JunkCategory::SystemTemp).to_string(),
        rule_name: rule_id.to_string(),
        path: path.to_string(),
        size,
        file_count: 1,
        is_directory: false,
        risk_level: risk,
        default_selected: true,
        why_safe: None,
    }
}

#[test]
fn category_labels_are_the_interface_texts() {
    assert_eq!(category_label(JunkCategory::RecycleBin), "回收站");
    assert_eq!(category_label(JunkCategory::BrowserCache), "浏览器缓存");
}

#[test]
fn the_riskier_then_unselected_then_more_specific_item_wins() {
    let safe = item("C:\\a", 10, JunkRiskLevel::Safe, "r1");
    let risky = item("C:\\a", 5, JunkRiskLevel::Risky, "r2");
    assert!(should_replace_item(&safe, &risky));
    assert!(!should_replace_item(&risky, &safe));
    let mut unselected = item("C:\\a", 1, JunkRiskLevel::Safe, "r4");
    unselected.default_selected = false;
    assert!(should_replace_item(&safe, &unselected));
    assert!(!should_replace_item(&unselected, &safe));
    let longer = item("C:\\a", 1, JunkRiskLevel::Safe, "r1_long");
    assert!(should_replace_item(&safe, &longer));
    assert!(!should_replace_item(&longer, &safe));
    let same_len = item("C:\\a", 99, JunkRiskLevel::Safe, "r3");
    assert!(!should_replace_item(&safe, &same_len));
}

#[test]
fn items_of_one_path_are_merged_and_totals_follow() {
    let items = vec![
        item("C:\\Temp\\a.tmp", 10, JunkRiskLevel::Safe, "r1"),
        item("c:\\temp\\A.TMP", 30, JunkRiskLevel::Safe, "r2"),
        item("C:\\Temp\\b.tmp", 5, JunkRiskLevel::Caution, "r3"),
    ];
    let merged = dedupe_items_by_path(items);
    assert_eq!(merged.len(), 2);
    let result = finish_junk_scan(
        vec![
            item("C:\\Temp\\a.tmp", 10, JunkRiskLevel::Safe, "r1"),
            item("C:\\Temp\\b.tmp", 5, JunkRiskLevel::Caution, "r3"),
        ],
        4,
        vec!["skipped".to_string()],
        12,
    );
    assert_eq!(result.total_size, 15);
    assert_eq!(result.total_count, 2);
    assert_eq!(result.scanned_rules, 4);
    assert_eq!(result.skipped_rules, vec!["skipped".to_string()]);
    assert_eq!(result.scan_duration_ms, 12);
}

#[test]
fn removal_reports_follow_their_errors() {
    assert_eq!(delete_mode_for(true), DeleteMode::Recycle);
    assert_eq!(delete_mode_for(false), DeleteMode::Permanent);
    let missing = missing_path_result("C:\\gone", DeleteMode::Permanent, 3);
    assert!(!missing.success);
    assert_eq!(missing.errors.len(), 1);
    assert_eq!(missing.errors[0].error, "路径不存在");
    let ok = finish_delete("C:\\x".to_string(), DeleteMode::Recycle, 100, 2, vec![], 7);
    assert!(ok.success);
    assert_eq!(ok.deleted_size, 100);
    let failed = finish_delete(
        "C:\\y".to_string(),
        DeleteMode::Permanent,
        0,
        0,
        vec![DeleteError { path: "C:\\y\\z".to_string(), error: "denied".to_string() }],
        1,
    );
    assert!(!failed.success);
    assert_eq!(recycled_file_count(0), 1);
    assert_eq!(recycled_file_count(4), 4);
}

#[test]
fn tally_counts_cleaned_and_failed_paths() {
    let mut tally = CleanTally::new();
    tally.record_result(finish_delete("C:\\a".to_string(), DeleteMode::Recycle, 100, 3, vec![], 1));
    tally.record_missing();
    tally.record_failure("C:\\b".to_string(), "locked".to_string());
    let result = tally.finish(9);
    assert_eq!(result.cleaned_size, 100);
    assert_eq!(result.failed_count, 1);
    assert_eq!(result.cleaned_count, 3);
    assert!(!result.success);
    assert_eq!(result.duration_ms, 9);
    assert!(result.errors.iter().any(|e| e.path == "C:\\b" && e.error == "locked"));
}

#[test]
fn pattern_walks_descend_within_the_cap_and_report_matching_files() {
    let mut r = rule("logs", JunkCategory::AppLogs, false);
    r.patterns = vec!["*.log".to_string(), "*.tmp".to_string()];
    r.max_depth = Some(2);
    assert_eq!(walk_step(&r, 1, true, false, "sub"), WalkStep::Descend);
    assert_eq!(walk_step(&r, 2, true, false, "sub"), WalkStep::Ignore);
    assert_eq!(walk_step(&r, 0, true, true, "link"), WalkStep::Ignore);
    assert_eq!(walk_step(&r, 5, false, false, "a.tmp"), WalkStep::Report);
    assert_eq!(walk_step(&r, 5, false, false, "a.txt"), WalkStep::Ignore);
    r.max_depth = None;
    assert_eq!(walk_step(&r, 1000, true, false, "sub"), WalkStep::Descend);
    assert!(matches_any_pattern("x.log", &r.patterns));
    assert!(!matches_any_pattern("x.log", &vec![]));
}

#[test]
fn items_carry_the_rule_fields() {
    let mut r = rule("temp", JunkCategory::SystemTemp, false);
    r.why_safe = Some("regenerated".to_string());
    let it = rule_item(&r, "C:\\t\\a".to_string(), 9, 2, true);
    assert_eq!(it.rule_id, "temp");
    assert_eq!(it.category_name, "系统临时文件");
    assert_eq!(it.size, 9);
    assert_eq!(it.file_count, 2);
    assert!(it.is_directory);
    assert_eq!(it.why_safe.as_deref(), Some("regenerated"));
}

#[test]
fn wildcard_paths_split_into_listing_plans() {
    match split_path_glob("C:/Users/x/AppData") {
        PathGlob::Literal(p) => assert_eq!(p, "C:\\Users\\x\\AppData"),
        _ => panic!("expected a literal path"),
    }
    match split_path_glob("C:\\Users\\*\\AppData\\Local\\Temp") {
        PathGlob::Expand(plan) => {
            assert_eq!(plan.list_dir, "C:\\Users");
            assert_eq!(plan.prefix, "C:\\Users");
            assert_eq!(plan.segment, "*");
            assert_eq!(plan.suffix, "\\AppData\\Local\\Temp");
            assert_eq!(glob_candidate(&plan, "bob"), "C:\\Users\\bob\\AppData\\Local\\Temp");
        }
        _ => panic!("expected a plan"),
    }
    match split_path_glob("C:\\$Recycle*") {
        PathGlob::Expand(plan) => {
            assert_eq!(plan.list_dir, "C:\\");
            assert_eq!(plan.prefix, "C:");
            assert_eq!(plan.segment, "$Recycle*");
            assert_eq!(plan.suffix, "");
        }
        _ => panic!("expected a plan"),
    }
    assert!(matches!(split_path_glob("*\\x"), PathGlob::Unresolvable));
}
