use csd_cleaner::file_info::{DirectoryNode, FileInfo};
use csd_cleaner::incremental::{
    apply_direct_file_refreshes, inspect_tree_merge_health, merge_scan_results, merge_scan_results_with_own,
    rebuild_large_files, OwnOverrides, RescanMode,
};
use csd_cleaner::path_utils::{normalized_path_key, normalized_path_key_str};

fn join(base: &str, name: &str) -> String {
    format!("{}/{}", base, name)
}

fn file_name(path: &str) -> String {
    path.rsplit(|c| c == '/' || c == '\\')
        .next()
        .unwrap_or("")
        .to_string()
}

fn make_node(
    path: &str,
    size: u64,
    file_count: usize,
    dir_count: usize,
    children: Vec<DirectoryNode>,
) -> DirectoryNode {
    DirectoryNode {
        path: path.to_string(),
        name: file_name(path),
        size,
        file_count,
        dir_count,
        has_children: !children.is_empty(),
        children,
        is_symlink: false,
        link_target: None,
        safety: None,
        modified_time: None,
        file_id: None,
    }
}

#[test]
fn merge_scan_results_updates_ancestor_totals_for_changed_subtree() {
    let root = "root".to_string();
    let dir_a = join(&root, "a");
    let dir_b = join(&dir_a, "b");

    let old_tree = vec![make_node(
        &dir_a,
        100,
        2,
        2,
        vec![make_node(&dir_b, 40, 1, 1, vec![])],
    )];

    let merged = merge_scan_results(
        old_tree,
        vec![make_node(&dir_b, 80, 2, 1, vec![])],
        vec![],
        &root,
    );

    assert_eq!(merged.len(), 1);
    let merged_a = &merged[0];
    assert_eq!(merged_a.path, dir_a);
    assert_eq!(merged_a.size, 140);
    assert_eq!(merged_a.file_count, 3);
    assert_eq!(merged_a.dir_count, 2);
    assert_eq!(merged_a.children.len(), 1);
    assert_eq!(merged_a.children[0].path, dir_b);
    assert_eq!(merged_a.children[0].size, 80);
    assert_eq!(merged_a.children[0].file_count, 2);
}

#[test]
fn merge_scan_results_removes_deleted_subtree_and_updates_parent() {
    let root = "root".to_string();
    let dir_a = join(&root, "a");
    let dir_b = join(&dir_a, "b");
    let dir_c = join(&dir_a, "c");

    let old_tree = vec![make_node(
        &dir_a,
        150,
        3,
        3,
        vec![
            make_node(&dir_b, 50, 1, 1, vec![]),
            make_node(&dir_c, 70, 2, 1, vec![]),
        ],
    )];

    let merged = merge_scan_results(old_tree, vec![], vec![dir_b.clone()], &root);

    assert_eq!(merged.len(), 1);
    let merged_a = &merged[0];
    assert_eq!(merged_a.size, 100);
    assert_eq!(merged_a.file_count, 2);
    assert_eq!(merged_a.dir_count, 2);
    assert_eq!(merged_a.children.len(), 1);
    assert_eq!(merged_a.children[0].path, dir_c);
}

#[test]
fn merge_scan_results_matches_paths_case_insensitively() {
    let root = r"C:\".to_string();
    let dir_a = r"C:\Data".to_string();
    let dir_b = r"C:\Data\Logs".to_string();

    let old_tree = vec![make_node(
        &dir_a,
        100,
        2,
        2,
        vec![make_node(&dir_b, 40, 1, 1, vec![])],
    )];

    let merged = merge_scan_results(
        old_tree,
        vec![make_node(r"c:\data\logs", 80, 2, 1, vec![])],
        vec![],
        &root,
    );

    assert_eq!(merged.len(), 1);
    let merged_a = &merged[0];
    assert_eq!(normalized_path_key_str(&merged_a.path), normalized_path_key(&dir_a));
    assert_eq!(merged_a.size, 140);
    assert_eq!(merged_a.file_count, 3);
    assert_eq!(merged_a.dir_count, 2);
    assert_eq!(merged_a.children.len(), 1);
    assert_eq!(
        normalized_path_key_str(&merged_a.children[0].path),
        normalized_path_key(&dir_b)
    );
    assert_eq!(merged_a.children[0].size, 80);
    assert_eq!(merged_a.children[0].file_count, 2);
}

#[test]
fn apply_direct_file_refreshes_updates_ancestors_without_rebuilding_tree() {
    let root = "root".to_string();
    let dir_a = join(&root, "a");
    let dir_b = join(&dir_a, "b");

    let old_tree = vec![make_node(
        &dir_a,
        140,
        3,
        2,
        vec![make_node(&dir_b, 40, 1, 1, vec![])],
    )];

    let refreshed = vec![make_node(
        &dir_a,
        180,
        4,
        2,
        vec![make_node(&dir_b, 40, 1, 1, vec![])],
    )];
    let merged = apply_direct_file_refreshes(old_tree, refreshed, &root);

    assert_eq!(merged.len(), 1);
    let merged_a = &merged[0];
    assert_eq!(merged_a.size, 180);
    assert_eq!(merged_a.file_count, 4);
    assert_eq!(merged_a.dir_count, 2);
    assert_eq!(merged_a.children.len(), 1);
    assert_eq!(merged_a.children[0].size, 40);
    assert_eq!(merged_a.children[0].file_count, 1);
}

#[test]
fn merge_scan_results_inserts_new_subtree_under_existing_parent() {
    let root = "root".to_string();
    let dir_a = join(&root, "a");
    let dir_b = join(&dir_a, "b");

    let old_tree = vec![make_node(&dir_a, 100, 2, 1, vec![])];

    let merged = merge_scan_results(
        old_tree,
        vec![make_node(&dir_b, 30, 1, 1, vec![])],
        vec![],
        &root,
    );

    assert_eq!(merged.len(), 1);
    let merged_a = &merged[0];
    assert_eq!(merged_a.size, 130);
    assert_eq!(merged_a.file_count, 3);
    assert_eq!(merged_a.dir_count, 2);
    assert_eq!(merged_a.children.len(), 1);
    assert_eq!(merged_a.children[0].path, dir_b);
    assert!(merged_a.has_children);
}

#[test]
fn merge_scan_results_handles_deep_nesting_with_multiple_changes() {
    let root = "root".to_string();
    let dir_a = join(&root, "a");
    let dir_ab = join(&dir_a, "b");
    let dir_abc = join(&dir_ab, "c");
    let dir_abc_x = join(&dir_abc, "x");
    let dir_abc_y = join(&dir_abc, "y");

    let old_tree = vec![make_node(
        &dir_a,
        300,
        6,
        4,
        vec![make_node(
            &dir_ab,
            300,
            6,
            3,
            vec![make_node(
                &dir_abc,
                300,
                6,
                2,
                vec![
                    make_node(&dir_abc_x, 100, 2, 1, vec![]),
                    make_node(&dir_abc_y, 200, 4, 1, vec![]),
                ],
            )],
        )],
    )];

    let merged = merge_scan_results(
        old_tree,
        vec![
            make_node(&dir_abc_x, 50, 1, 1, vec![]),
            make_node(&dir_abc_y, 250, 5, 1, vec![]),
        ],
        vec![],
        &root,
    );

    let merged_a = &merged[0];
    assert_eq!(merged_a.size, 300);
    assert_eq!(merged_a.file_count, 6);

    let merged_ab = &merged_a.children[0];
    assert_eq!(merged_ab.size, 300);
    assert_eq!(merged_ab.file_count, 6);

    let merged_abc = &merged_ab.children[0];
    assert_eq!(merged_abc.size, 300);
    assert_eq!(merged_abc.file_count, 6);
    assert_eq!(merged_abc.children.len(), 2);
}

#[test]
fn merge_scan_results_combines_delete_and_upsert_in_one_pass() {
    let root = "root".to_string();
    let dir_a = join(&root, "a");
    let dir_old = join(&dir_a, "old");
    let dir_new = join(&dir_a, "new");

    let old_tree = vec![make_node(
        &dir_a,
        150,
        4,
        2,
        vec![make_node(&dir_old, 80, 2, 1, vec![])],
    )];

    let merged = merge_scan_results(
        old_tree,
        vec![make_node(&dir_new, 200, 5, 1, vec![])],
        vec![dir_old.clone()],
        &root,
    );

    let merged_a = &merged[0];
    assert_eq!(merged_a.children.len(), 1);
    assert_eq!(merged_a.children[0].path, dir_new);
    assert_eq!(merged_a.size, 270);
    assert_eq!(merged_a.file_count, 7);
    assert_eq!(merged_a.dir_count, 2);
}

#[test]
fn merge_scan_results_falls_back_when_changing_root_path() {
    let root = "root".to_string();
    let dir_a = join(&root, "a");

    let old_tree = vec![make_node(&dir_a, 100, 2, 1, vec![])];

    let merged = merge_scan_results(
        old_tree,
        vec![make_node(&root, 999, 999, 999, vec![])],
        vec![],
        &root,
    );

    assert!(!merged.is_empty());
}

#[test]
fn merge_scan_results_handles_overlapping_parent_and_child_changes() {
    let root = "root".to_string();
    let dir_a = join(&root, "a");
    let dir_b = join(&dir_a, "b");

    let old_tree = vec![make_node(
        &dir_a,
        300,
        6,
        2,
        vec![make_node(&dir_b, 200, 4, 1, vec![])],
    )];

    let parent_change = make_node(
        &dir_a,
        350,
        7,
        2,
        vec![make_node(&dir_b, 220, 5, 1, vec![])],
    );
    let child_change = make_node(&dir_b, 240, 6, 1, vec![]);

    let merged = merge_scan_results(old_tree, vec![child_change, parent_change], vec![], &root);

    let merged_a = &merged[0];
    let merged_b = &merged_a.children[0];
    assert_eq!(merged_b.size, 240);
    assert_eq!(merged_b.file_count, 6);
    assert!(merged_a.size >= merged_b.size);
    assert!(merged_a.file_count >= merged_b.file_count);
}

#[test]
fn merge_with_own_override_sets_exact_own_part() {
    let root = "root".to_string();
    let dir_a = join(&root, "a");
    let dir_b = join(&dir_a, "b");
    let old_tree = vec![make_node(
        &dir_a,
        100,
        2,
        2,
        vec![make_node(&dir_b, 40, 1, 1, vec![])],
    )];
    let mut overrides = OwnOverrides::new();
    overrides.insert(normalized_path_key_str(&dir_a), (5, 1));
    let merged = merge_scan_results_with_own(old_tree, vec![], &overrides, vec![], &root);
    assert_eq!(merged[0].size, 45);
    assert_eq!(merged[0].file_count, 2);
    assert_eq!(merged[0].dir_count, 2);
}

#[test]
fn merge_sorts_siblings_by_size_largest_first() {
    let root = "root".to_string();
    let dir_a = join(&root, "a");
    let dir_x = join(&dir_a, "x");
    let dir_y = join(&dir_a, "y");
    let old_tree = vec![make_node(
        &dir_a,
        300,
        3,
        3,
        vec![
            make_node(&dir_x, 100, 1, 1, vec![]),
            make_node(&dir_y, 200, 2, 1, vec![]),
        ],
    )];
    let merged = merge_scan_results(old_tree, vec![], vec![], &root);
    assert_eq!(merged[0].children[0].path, dir_y);
    assert_eq!(merged[0].children[1].path, dir_x);
}

#[test]
fn refresh_takes_new_time_and_id_of_top_level_directory() {
    let root = "root".to_string();
    let dir_a = join(&root, "a");
    let dir_c = join(&root, "c");
    let old_tree = vec![
        make_node(&dir_a, 100, 2, 1, vec![]),
        make_node(&dir_c, 50, 1, 1, vec![]),
    ];
    let mut fresh = make_node(&dir_c, 500, 7, 1, vec![]);
    fresh.modified_time = Some(1_700_000_000);
    fresh.file_id = Some(42);
    let merged = apply_direct_file_refreshes(old_tree, vec![fresh], &root);
    assert_eq!(merged.len(), 2);
    assert_eq!(merged[0].path, dir_c);
    assert_eq!(merged[0].size, 500);
    assert_eq!(merged[0].file_count, 7);
    assert_eq!(merged[0].modified_time, Some(1_700_000_000));
    assert_eq!(merged[0].file_id, Some(42));
    assert_eq!(merged[1].path, dir_a);
    assert_eq!(merged[1].size, 100);
}

#[test]
fn merge_places_new_directory_directly_under_root() {
    let root = "root".to_string();
    let dir_a = join(&root, "a");
    let dir_c = join(&root, "c");
    let old_tree = vec![make_node(&dir_a, 100, 2, 1, vec![])];
    let changed = vec![make_node(&dir_c, 300, 3, 1, vec![])];
    let merged = merge_scan_results(old_tree, changed, vec![], &root);
    assert_eq!(merged.len(), 2);
    assert_eq!(merged[0].path, dir_c);
    assert_eq!(merged[0].size, 300);
    assert_eq!(merged[1].path, dir_a);
}

#[test]
fn health_counts_repeats_orphans_and_inconsistent_nodes() {
    let root = "root".to_string();
    let dir_a = join(&root, "a");
    let dir_b = join(&dir_a, "b");
    let stray = join(&dir_b, "deep");
    // a: size far below its child, directory count off by five
    let a = make_node(&dir_a, 10, 1, 7, vec![make_node(&dir_b, 50_000_000, 1, 1, vec![])]);
    let nodes = vec![a, make_node(&dir_a, 1, 1, 1, vec![]), make_node(&stray, 5, 1, 1, vec![])];
    let h = inspect_tree_merge_health(&nodes, &root);
    assert_eq!(h.duplicate_paths, 1);
    assert_eq!(h.orphan_root_count, 1);
    assert_eq!(h.unique_dir_nodes, 3);
    assert_eq!(h.inconsistent_node_count, 2);
    assert_eq!(h.inconsistent_node_samples.len(), 2);
}

#[test]
fn refresh_reaches_a_nested_directory_and_its_ancestor() {
    let root = "root".to_string();
    let dir_a = join(&root, "a");
    let dir_b = join(&dir_a, "b");
    let old_tree = vec![make_node(&dir_a, 140, 3, 2, vec![make_node(&dir_b, 40, 1, 1, vec![])])];
    let mut fresh = make_node(&dir_b, 90, 4, 1, vec![]);
    fresh.modified_time = Some(1_600_000_000);
    let merged = apply_direct_file_refreshes(old_tree, vec![fresh], &root);
    assert_eq!(merged.len(), 1);
    assert_eq!(merged[0].children[0].path, dir_b);
    assert_eq!(merged[0].children[0].size, 90);
    assert_eq!(merged[0].children[0].file_count, 4);
    assert_eq!(merged[0].children[0].modified_time, Some(1_600_000_000));
    assert_eq!(merged[0].size, 190);
    assert_eq!(merged[0].file_count, 6);
}

fn big_file(path: &str, size: u64) -> FileInfo {
    FileInfo {
        path: path.to_string(),
        name: file_name(path),
        size,
        extension: "bin".to_string(),
        modified_at: String::new(),
        is_readonly: false,
        is_symlink: false,
        link_target: None,
    }
}

#[test]
fn merge_keeps_own_files_of_an_untouched_grandparent() {
    let old = vec![make_node(
        "r/a",
        500,
        5,
        3,
        vec![make_node("r/a/b", 300, 3, 2, vec![make_node("r/a/b/c", 100, 1, 1, vec![])])],
    )];
    let changed = vec![make_node("r/a/b/c", 40, 1, 1, vec![])];
    let m = merge_scan_results(old, changed, vec![], "r");
    assert_eq!(m.len(), 1);
    assert_eq!(m[0].size, 440);
    assert_eq!(m[0].file_count, 5);
    assert_eq!(m[0].children[0].size, 240);
    assert_eq!(m[0].children[0].file_count, 3);
}

#[test]
fn large_files_drop_what_was_rescanned_or_deleted() {
    let cached = vec![
        big_file("r/a/x.bin", 500),
        big_file("r/a/b/y.bin", 400),
        big_file("r/c/z.bin", 300),
        big_file("r/d/w.bin", 200),
        big_file("r/d/e/v.bin", 150),
        big_file("r/top.bin", 100),
    ];
    let deleted = vec!["r/c".to_string()];
    let scopes = vec![("r/a".to_string(), RescanMode::Recursive), ("r/d".to_string(), RescanMode::DirectFilesOnly)];
    let rescanned = vec![big_file("r/a/new.bin", 350), big_file("r/d/w.bin", 250)];
    let root_large = vec![big_file("r/top2.bin", 120)];
    let r = rebuild_large_files(cached, &deleted, &scopes, true, "r", rescanned, root_large);
    let paths: Vec<&str> = r.iter().map(|f| f.path.as_str()).collect();
    assert_eq!(paths, vec!["r/a/new.bin", "r/d/w.bin", "r/d/e/v.bin", "r/top2.bin"]);
}

#[test]
fn large_files_keep_root_files_when_the_root_did_not_change() {
    let cached = vec![big_file("r/top.bin", 100)];
    let r = rebuild_large_files(cached, &vec![], &vec![], false, "r", vec![], vec![big_file("r/other.bin", 900)]);
    assert_eq!(r.len(), 1);
    assert_eq!(r[0].path, "r/top.bin");
}

#[test]
fn merge_places_a_new_directory_under_its_deep_parent() {
    let old = vec![make_node("r/a", 50, 1, 2, vec![make_node("r/a/b", 20, 1, 1, vec![])])];
    let changed = vec![make_node("r/a/b/c", 5, 1, 1, vec![])];
    let m = merge_scan_results(old, changed, vec![], "r");
    assert_eq!(m.len(), 1);
    assert_eq!(m[0].children.len(), 1);
    assert_eq!(m[0].children[0].path, "r/a/b");
    assert_eq!(m[0].children[0].children.len(), 1);
    assert_eq!(m[0].children[0].children[0].path, "r/a/b/c");
    assert_eq!(m[0].children[0].size, 25);
    assert_eq!(m[0].size, 55);
}
