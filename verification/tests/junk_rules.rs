use csd_cleaner::preflight::{
    build_parent_child_lockset, check_lock, collect_rule_paths, target_paths_for, civil_from_days, estimate_seconds, format_age_detail, format_unix_seconds_local,
    normalize_for_compare, path_is_strict_ancestor, recently_touched, run_dry_run, DryRunInput, FileItemPreview,
    FileProbe, LockHit,
};
use csd_cleaner::rule_loader::{
    effective_max_depth, expand_env_vars, is_drive_root, load_json_rules, prepare_all_rules, resolve_target,
    CleanRuleConfig, JsonCategory, JsonRisk, TargetConfig, DRIVE_ROOT_DEFAULT_MAX_DEPTH,
};
use csd_cleaner::rules::{all_rules, env_path, legacy_rules, JunkCategory, JunkRiskLevel, JunkRule};
use std::collections::{BTreeMap, HashSet};

fn windows_env() -> Vec<(String, String)> {
    vec![
        ("TEMP".to_string(), r"C:\Users\test\AppData\Local\Temp".to_string()),
        ("LOCALAPPDATA".to_string(), r"C:\Users\test\AppData\Local".to_string()),
        ("APPDATA".to_string(), r"C:\Users\test\AppData\Roaming".to_string()),
        ("windir".to_string(), r"C:\Windows".to_string()),
        ("PROGRAMDATA".to_string(), r"C:\ProgramData".to_string()),
        ("USERPROFILE".to_string(), r"C:\Users\test".to_string()),
    ]
}

fn env_of(pairs: &[(&str, &str)]) -> Vec<(String, String)> {
    pairs.iter().map(|(k, v)| (k.to_string(), v.to_string())).collect()
}

#[test]
fn rules_have_unique_ids() {
    let rules = all_rules(&windows_env(), vec![]);
    let mut seen: HashSet<String> = HashSet::new();
    for r in &rules {
        assert!(seen.insert(r.id.clone()), "duplicate rule id: {}", r.id);
    }
}

#[test]
fn rule_ids_are_snake_case_ascii() {
    let rules = all_rules(&windows_env(), vec![]);
    for r in &rules {
        assert!(!r.id.is_empty(), "empty id");
        assert!(
            r.id.chars().all(|c| c.is_ascii_lowercase() || c.is_ascii_digit() || c == '_'),
            "rule id is not snake_case ascii: {}",
            r.id
        );
    }
}

#[test]
fn every_rule_has_paths_and_text() {
    let rules = all_rules(&windows_env(), vec![]);
    for r in &rules {
        assert!(!r.paths.is_empty(), "rule {} has empty paths", r.id);
        assert!(!r.name.is_empty(), "rule {} has empty name", r.id);
        assert!(!r.description.is_empty(), "rule {} has empty description", r.id);
    }
}

#[test]
fn recycle_bin_is_present_with_drive_letter() {
    let rules = all_rules(&windows_env(), vec![]);
    let rb = rules
        .iter()
        .find(|r| r.category == JunkCategory::RecycleBin)
        .expect("recycle bin rule missing");
    assert!(rb.paths.iter().any(|p| p.contains("$Recycle.Bin")));
}

#[test]
fn rules_count_meets_enterprise_floor() {
    let rules = all_rules(&windows_env(), vec![]);
    assert!(rules.len() >= 80, "expected >=80 rules, got {}", rules.len());
}

#[test]
fn print_rules_summary() {
    let rules = all_rules(&windows_env(), vec![]);
    let mut by_cat: BTreeMap<String, usize> = BTreeMap::new();
    for r in &rules {
        *by_cat.entry(format!("{:?}", r.category)).or_insert(0) += 1;
    }
    println!("[summary] total={}", rules.len());
    for (k, v) in &by_cat {
        println!("[summary] {}: {}", k, v);
    }
}

#[test]
fn env_path_strips_trailing_slash_and_joins() {
    let env = env_of(&[("__JUNK_RULES_TEST_VAR__", "C:\\Some\\Dir\\")]);
    let p = env_path(&env, "__JUNK_RULES_TEST_VAR__", "Sub").unwrap();
    assert_eq!(p, "C:\\Some\\Dir\\Sub");
    let q = env_path(&env, "__junk_rules_test_var__", "\\/Sub").unwrap();
    assert_eq!(q, "C:\\Some\\Dir\\Sub");
    assert_eq!(env_path(&env, "__JUNK_RULES_TEST_VAR__", "").unwrap(), "C:\\Some\\Dir");
}

#[test]
fn env_path_returns_none_for_missing_or_blank_var() {
    let env = env_of(&[("BLANK", "  \\ ")]);
    assert!(env_path(&env, "__JUNK_RULES_TEST_MISSING__", "x").is_none());
    assert!(env_path(&env, "BLANK", "x").is_none());
}

#[test]
fn without_environment_only_the_recycle_bin_remains() {
    let rules = legacy_rules(&vec![]);
    assert_eq!(rules.len(), 1);
    assert_eq!(rules[0].id, "recycle_bin_c");
    assert_eq!(rules[0].paths, vec![r"C:\$Recycle.Bin".to_string()]);
}

fn json_rule(id: &str, risk: JunkRiskLevel, path: &str) -> JunkRule {
    JunkRule {
        id: id.to_string(),
        category: JunkCategory::AppLogs,
        name: "n".to_string(),
        description: "d".to_string(),
        paths: vec![path.to_string()],
        patterns: vec![],
        risk_level: risk,
        requires_admin: false,
        default_selected: true,
        clean_subdirs_only: false,
        max_depth: None,
        why_safe: None,
    }
}

#[test]
fn loaded_rules_come_first_and_shadow_built_in_ids() {
    let loaded = vec![json_rule("user_temp", JunkRiskLevel::Safe, r"D:\Temp")];
    let rules = all_rules(&windows_env(), loaded);
    assert_eq!(rules[0].id, "user_temp");
    assert_eq!(rules[0].paths, vec![r"D:\Temp".to_string()]);
    assert_eq!(rules.iter().filter(|r| r.id == "user_temp").count(), 1);
}

// ---------------------------------------------------------------------------
// Configured rules
// ---------------------------------------------------------------------------

#[test]
fn load_json_rules_does_not_panic() {
    let _rules = load_json_rules(&vec![], &vec![]);
}

#[test]
fn is_drive_root_recognizes_windows_drive_roots() {
    assert!(is_drive_root("C:"));
    assert!(is_drive_root("C:\\"));
    assert!(is_drive_root("C:/"));
    assert!(is_drive_root("c:"));
    assert!(is_drive_root("Z:\\\\"));
    assert!(!is_drive_root("C:\\Windows"));
    assert!(!is_drive_root("C:\\Found.000"));
    assert!(!is_drive_root(""));
    assert!(!is_drive_root("\\\\server\\share"));
}

#[test]
fn effective_max_depth_respects_explicit_value() {
    let paths = vec!["C:\\".to_string()];
    let depth = effective_max_depth("explicit_rule", &paths, 1, Some(3));
    assert_eq!(depth, Some(3));
}

#[test]
fn effective_max_depth_skips_when_no_patterns() {
    let paths = vec!["C:\\".to_string()];
    let depth = effective_max_depth("no_patterns", &paths, 0, None);
    assert_eq!(depth, None);
}

#[test]
fn effective_max_depth_applies_safety_net_for_drive_root() {
    let paths = vec!["C:\\".to_string()];
    let depth = effective_max_depth("drive_root_rule", &paths, 1, None);
    assert_eq!(depth, Some(DRIVE_ROOT_DEFAULT_MAX_DEPTH));
}

#[test]
fn effective_max_depth_skips_safety_net_for_normal_paths() {
    let paths = vec!["C:\\Users\\test\\AppData\\Local".to_string()];
    let depth = effective_max_depth("normal_rule", &paths, 1, None);
    assert_eq!(depth, None);
}

#[test]
fn load_json_rules_uses_static_cache_on_repeated_calls() {
    let first = load_json_rules(&vec![], &vec![]);
    let second = load_json_rules(&vec![], &vec![]);
    assert_eq!(first.len(), second.len(), "rule count must be deterministic across calls");
    if first.is_empty() {
        return;
    }
    assert_eq!(first[0].id, second[0].id);
}

#[test]
fn expand_env_vars_basic() {
    let env = env_of(&[("__RULE_LOADER_TEST__", "C:\\TestDir")]);
    let result = expand_env_vars("%__RULE_LOADER_TEST__%\\Sub", &env).unwrap();
    assert_eq!(result, "C:\\TestDir\\Sub");
}

#[test]
fn expand_env_vars_returns_none_for_missing() {
    let env = env_of(&[]);
    assert!(expand_env_vars("%__RULE_LOADER_MISSING_VAR__%\\X", &env).is_none());
}

#[test]
fn expand_env_vars_rejects_unclosed_and_empty_names() {
    let env = env_of(&[("A", "x")]);
    assert!(expand_env_vars("%A", &env).is_none());
    assert!(expand_env_vars("%%\\x", &env).is_none());
    assert_eq!(expand_env_vars("no vars", &env).unwrap(), "no vars");
    assert_eq!(expand_env_vars("%A%%A%", &env).unwrap(), "xx");
}

fn config(id: &str, targets: Vec<TargetConfig>, max_depth: Option<u32>) -> CleanRuleConfig {
    CleanRuleConfig {
        id: id.to_string(),
        app_id: "app".to_string(),
        detect: vec!["%SYSTEMDRIVE%\\Tool".to_string(), "%MISSING%\\x".to_string()],
        category: JsonCategory::DevCache,
        name: "name".to_string(),
        description: "desc".to_string(),
        targets,
        risk: JsonRisk::Caution,
        requires_admin: false,
        default_selected: true,
        clean_subdirs_only: true,
        max_depth,
        why_safe: Some("   ".to_string()),
    }
}

#[test]
fn targets_resolve_subdirs_and_drop_unresolvable_rules() {
    let env = env_of(&[("SYSTEMDRIVE", "C:")]);
    let t = TargetConfig {
        base: "%SYSTEMDRIVE%\\Data".to_string(),
        subdirs: Some(vec!["\\a".to_string(), "b".to_string()]),
        patterns: None,
    };
    assert_eq!(resolve_target(&t, &env), vec!["C:\\Data\\a".to_string(), "C:\\Data\\b".to_string()]);
    let root = TargetConfig { base: "%SYSTEMDRIVE%".to_string(), subdirs: None, patterns: Some(vec!["*.log".to_string()]) };
    let missing = TargetConfig { base: "%NOPE%".to_string(), subdirs: None, patterns: None };
    let prepared = prepare_all_rules(&vec![config("kept", vec![root], None), config("dropped", vec![missing], None)], &env);
    assert_eq!(prepared.len(), 1);
    let p = &prepared[0];
    assert_eq!(p.id, "kept");
    assert_eq!(p.target_paths, vec!["C:".to_string()]);
    assert_eq!(p.detect_paths, vec!["C:\\Tool".to_string()]);
    assert_eq!(p.max_depth, Some(DRIVE_ROOT_DEFAULT_MAX_DEPTH));
    assert_eq!(p.category, JunkCategory::BrowserCache);
    assert!(p.why_safe.is_none());
    let rules = load_json_rules(&prepared, &vec![true]);
    assert_eq!(rules.len(), 1);
    assert_eq!(rules[0].patterns, vec!["*.log".to_string()]);
    assert!(load_json_rules(&prepared, &vec![false]).is_empty());
}

// ---------------------------------------------------------------------------
// Preflight
// ---------------------------------------------------------------------------

#[test]
fn ancestor_basic() {
    assert!(path_is_strict_ancestor("C:\\USERS\\X\\APPDATA\\LOCAL\\FOO", "C:\\USERS\\X\\APPDATA\\LOCAL\\FOO\\CACHE"));
    assert!(!path_is_strict_ancestor("C:\\USERS\\X\\APPDATA\\LOCAL\\FOO", "C:\\USERS\\X\\APPDATA\\LOCAL\\FOO"));
    assert!(!path_is_strict_ancestor("C:\\USERS\\X\\APPDATA\\LOCAL\\FOO", "C:\\USERS\\X\\APPDATA\\LOCAL\\FOOBAR"));
    assert!(!path_is_strict_ancestor("", "C:\\X"));
}

#[test]
fn normalize_strips_trailing_backslash() {
    assert_eq!(normalize_for_compare("C:\\Foo\\Bar\\"), "C:\\FOO\\BAR");
    assert_eq!(normalize_for_compare("C:\\Foo/Bar"), "C:\\FOO\\BAR");
}

#[test]
fn lockset_smoke() {
    let _ = build_parent_child_lockset(&all_rules(&windows_env(), vec![]));
}

#[test]
fn lockset_holds_back_safe_rules_covering_other_safe_rules() {
    let rules = vec![
        json_rule("outer", JunkRiskLevel::Safe, r"C:\Cache"),
        json_rule("inner", JunkRiskLevel::Safe, r"c:/cache/sub"),
        json_rule("risky_outer", JunkRiskLevel::Caution, r"C:\"),
    ];
    let blocked = build_parent_child_lockset(&rules);
    assert_eq!(blocked, vec!["outer".to_string()]);
}

#[test]
fn dates_and_times_are_formatted() {
    assert_eq!(civil_from_days(0), (1970, 1, 1));
    assert_eq!(civil_from_days(19_723), (2024, 1, 1));
    assert_eq!(civil_from_days(11_016), (2000, 2, 29));
    assert_eq!(format_unix_seconds_local(0), "1970-01-01 00:00:00");
    assert_eq!(format_unix_seconds_local(1_704_067_199), "2023-12-31 23:59:59");
    assert_eq!(format_age_detail(59_900_000_000), "59 秒前还在使用");
    assert_eq!(format_age_detail(125_000_000_000), "2 分钟前还在使用");
}

#[test]
fn recency_uses_the_later_stamp() {
    let now = 10_000_000_000_000u64;
    assert_eq!(recently_touched(Some(now - 5_000_000_000), Some(now - 7_000_000_000_000), now), Some(5_000_000_000));
    assert_eq!(recently_touched(Some(now - 3_600_000_000_000), None, now), None);
    assert_eq!(recently_touched(None, None, now), None);
    assert_eq!(recently_touched(Some(now + 1), None, now), None);
}

fn preview(size_mb: u64) -> FileItemPreview {
    FileItemPreview { path: "p".to_string(), size_mb, mtime_iso: String::new(), rule_id: "r".to_string(), is_symlink: false }
}

#[test]
fn estimate_counts_megabytes_and_items_with_a_floor_of_one_second() {
    assert_eq!(estimate_seconds(&vec![]), 1);
    assert_eq!(estimate_seconds(&vec![preview(160), preview(80)]), 3);
    let many: Vec<FileItemPreview> = (0..100).map(|_| preview(0)).collect();
    assert_eq!(estimate_seconds(&many), 2);
}

fn probe(found: bool, lock: Option<LockHit>) -> FileProbe {
    FileProbe {
        found,
        is_symlink: false,
        modified_ns: Some(0),
        accessed_ns: None,
        now_ns: 7_200_000_000_000,
        lock,
        modified_secs: Some(0),
    }
}

#[test]
fn dry_run_sorts_items_into_removed_and_skipped() {
    let items: Vec<DryRunInput> = ["a", "b", "c", "d"]
        .iter()
        .map(|p| DryRunInput {
            path: p.to_string(),
            rule_id: if *p == "a" { "held".to_string() } else { "ok".to_string() },
            size_bytes: 3 * 1_048_576 + 5,
        })
        .collect();
    let probes = vec![
        probe(true, None),
        probe(false, None),
        probe(true, Some(LockHit { code: "locked_by_process", detail: Some("x".to_string()) })),
        probe(true, None),
    ];
    let report = run_dry_run(&items, &vec!["held".to_string()], &probes);
    let reasons: Vec<&str> = report.will_skip.iter().map(|s| s.reason).collect();
    assert_eq!(reasons, vec!["parent_child_conflict", "not_found", "locked_by_process"]);
    assert_eq!(report.will_delete.len(), 1);
    assert_eq!(report.will_delete[0].path, "d");
    assert_eq!(report.will_delete[0].size_mb, 3);
    assert_eq!(report.will_delete[0].mtime_iso, "1970-01-01 00:00:00");
    assert_eq!(report.estimated_freed_mb, 3);
    assert_eq!(report.estimated_seconds, 1);
}

#[test]
fn env_path_strips_trailing_slash() {
    let env = env_of(&[("__JUNK_RULES_TEST_VAR__", "C:\\Some\\Dir\\")]);
    let p = env_path(&env, "__JUNK_RULES_TEST_VAR__", "Sub").unwrap();
    assert_eq!(p, "C:\\Some\\Dir\\Sub");
}

#[test]
fn env_path_returns_none_for_missing_var() {
    let env = env_of(&[]);
    assert!(env_path(&env, "__JUNK_RULES_TEST_MISSING__", "x").is_none());
}

#[test]
fn open_errors_map_to_lock_reports() {
    assert!(check_lock(None).is_none());
    let hit = check_lock(Some(0x8007_0020u32 as i32)).unwrap();
    assert_eq!(hit.code, "locked_by_process");
    assert_eq!(hit.detail.as_deref(), Some("文件被其他进程独占打开"));
    let hit = check_lock(Some(0x8007_0005u32 as i32)).unwrap();
    assert_eq!(hit.code, "permission_denied");
    let hit = check_lock(Some(0x8007_0002u32 as i32)).unwrap();
    assert_eq!(hit.code, "not_found");
    assert!(hit.detail.is_none());
    let hit = check_lock(Some(0x8007_0057u32 as i32)).unwrap();
    assert_eq!(hit.code, "locked_by_process");
    assert_eq!(hit.detail.as_deref(), Some("无法以删除权限打开（Win32 错误 87）"));
}

#[test]
fn rule_paths_are_listed_by_id() {
    let rules = all_rules(&windows_env(), vec![]);
    let listed = collect_rule_paths(&rules);
    assert_eq!(listed.len(), rules.len());
    assert_eq!(listed[0].0, rules[0].id);
    assert_eq!(listed[0].1, rules[0].paths);
    let id = rules[3].id.clone();
    assert_eq!(target_paths_for(&rules, &id), Some(rules[3].paths.clone()));
    assert_eq!(target_paths_for(&rules, "no_such_rule"), None);
}
