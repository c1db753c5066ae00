use csd_cleaner::file_info::{DirectoryNode, FileInfo};
use csd_cleaner::incremental_plan::UsnCheckpoint;
use csd_cleaner::incremental::RescanMode;
use csd_cleaner::scan_tree::{assemble_scan_tree, build_scan_result, rescanned_subtree};

fn dir(path: &str) -> DirectoryNode {
    DirectoryNode {
        path: path.to_string(),
        name: path.rsplit('\\').next().unwrap_or(path).to_string(),
        size: 0,
        file_count: 0,
        dir_count: 1,
        children: Vec::new(),
        has_children: false,
        is_symlink: false,
        link_target: None,
        safety: None,
        modified_time: None,
        file_id: None,
    }
}

fn large(path: &str, size: u64) -> FileInfo {
    FileInfo {
        path: path.to_string(),
        name: String::new(),
        size,
        extension: String::new(),
        modified_at: String::new(),
        is_readonly: false,
        is_symlink: false,
        link_target: None,
    }
}

fn walked() -> (Vec<DirectoryNode>, Vec<(String, u64)>) {
    let dirs = vec![dir("C:\\r\\a\\b"), dir("C:\\r\\a"), dir("C:\\r\\c")];
    let files = vec![
        ("C:\\r\\a\\b\\x.bin".to_string(), 40),
        ("C:\\r\\a\\y.bin".to_string(), 60),
        ("C:\\r\\c\\z.bin".to_string(), 10),
        ("C:\\r\\top.bin".to_string(), 5),
    ];
    (dirs, files)
}

#[test]
fn walked_directories_form_a_tree_with_totals() {
    let (dirs, files) = walked();
    let tree = assemble_scan_tree("C:\\r", dirs, &files);
    assert_eq!(tree.len(), 2);
    assert_eq!(tree[0].path, "C:\\r\\a");
    assert_eq!(tree[0].size, 100);
    assert_eq!(tree[0].file_count, 2);
    assert_eq!(tree[0].dir_count, 2);
    assert_eq!(tree[0].children.len(), 1);
    assert_eq!(tree[0].children[0].path, "C:\\r\\a\\b");
    assert_eq!(tree[0].children[0].size, 40);
    assert_eq!(tree[1].path, "C:\\r\\c");
    assert_eq!(tree[1].size, 10);
}

#[test]
fn scan_result_counts_files_root_files_and_reserved_space() {
    let (dirs, files) = walked();
    let r = build_scan_result(
        "C:\\r",
        dirs,
        &files,
        vec![large("C:\\r\\a\\small", 1), large("C:\\r\\big", 9)],
        3,
        Some(1000),
        Some(UsnCheckpoint { journal_id: 4, next_usn: 77 }),
        None,
        12,
        Some("native".to_string()),
    );
    assert_eq!(r.total_size, 115);
    assert_eq!(r.total_files, 4);
    assert_eq!(r.system_reserved_bytes, 885);
    assert_eq!(r.directories.len(), 3);
    assert_eq!(r.directories[0].path, "C:\\r\\a");
    let root_node = r.directories.iter().find(|d| d.path == "C:\\r").expect("root files node");
    assert_eq!(root_node.size, 5);
    assert_eq!(root_node.file_count, 1);
    assert_eq!(r.total_dirs, 3);
    assert_eq!(r.large_files[0].size, 9);
    assert_eq!(r.inaccessible_count, 3);
    assert_eq!(r.usn_journal_id, Some(4));
    assert_eq!(r.usn_next_usn, Some(77));
}

#[test]
fn rescanned_directory_holds_its_subtree_and_own_files() {
    let dirs = vec![dir("C:\\r\\a\\b")];
    let files = vec![("C:\\r\\a\\b\\x.bin".to_string(), 40), ("C:\\r\\a\\y.bin".to_string(), 60)];
    let r = rescanned_subtree(dir("C:\\r\\a"), dirs, &files, vec![large("C:\\r\\a\\y.bin", 60)], 50);
    assert_eq!(r.mode, RescanMode::Recursive);
    assert_eq!(r.own_size, 60);
    assert_eq!(r.own_file_count, 1);
    assert_eq!(r.node.size, 100);
    assert_eq!(r.node.file_count, 2);
    assert_eq!(r.node.dir_count, 2);
    assert!(r.node.has_children);
    assert_eq!(r.node.children[0].path, "C:\\r\\a\\b");
    assert_eq!(r.large_files.len(), 1);
}

#[test]
fn rescanned_large_files_come_largest_first() {
    let r = rescanned_subtree(
        dir("C:\\r\\a"),
        Vec::new(),
        &Vec::new(),
        vec![large("C:\\r\\a\\s.bin", 10), large("C:\\r\\a\\l.bin", 90), large("C:\\r\\a\\m.bin", 50)],
        10,
    );
    let sizes: Vec<u64> = r.large_files.iter().map(|f| f.size).collect();
    assert_eq!(sizes, vec![90, 50, 10]);
}

#[test]
fn rescanned_large_files_are_those_at_the_threshold_or_above() {
    let r = rescanned_subtree(
        dir("C:\\r\\a"),
        Vec::new(),
        &Vec::new(),
        vec![large("C:\\r\\a\\s.bin", 10), large("C:\\r\\a\\l.bin", 90), large("C:\\r\\a\\m.bin", 50)],
        50,
    );
    let sizes: Vec<u64> = r.large_files.iter().map(|f| f.size).collect();
    assert_eq!(sizes, vec![90, 50]);
}
