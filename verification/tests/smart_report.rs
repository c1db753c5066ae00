use csd_cleaner::file_info::DirectoryNode;
use csd_cleaner::scan_index::IndexedScanResult;
use csd_cleaner::scan_tree::build_scan_result;
use csd_cleaner::smart_scan::{build_report_at, SmartCategory, MIN_GROUP_ITEM_SIZE};

fn dir(path: &str) -> DirectoryNode {
    DirectoryNode {
        path: path.to_string(),
        name: path.rsplit('\\').next().unwrap_or(path).to_string(),
        size: 0,
        file_count: 0,
        dir_count: 1,
        children: Vec::new(),
        has_children: false,
        is_symlink: false,
        link_target: None,
        safety: None,
        modified_time: None,
        file_id: None,
    }
}

#[test]
fn report_lists_a_large_node_modules_and_not_what_lies_inside_it() {
    let dirs = vec![
        dir("D:\\work\\app"),
        dir("D:\\work\\app\\node_modules"),
        dir("D:\\work\\app\\node_modules\\lodash"),
    ];
    let files = vec![
        ("D:\\work\\app\\node_modules\\lodash\\big.js".to_string(), MIN_GROUP_ITEM_SIZE * 2),
        ("D:\\work\\app\\main.rs".to_string(), 10),
    ];
    let result = build_scan_result("D:\\work", dirs, &files, Vec::new(), 0, None, None, None, 0, None);
    let indexed = IndexedScanResult::from_scan_result(&result);
    let report = build_report_at(&indexed, 7);
    assert_eq!(report.generated_at_ms, 7);
    let dev: Vec<_> = report.groups.iter().filter(|g| g.category == SmartCategory::DevTools).collect();
    assert_eq!(dev.len(), 1);
    assert_eq!(dev[0].items.len(), 1);
    assert_eq!(dev[0].items[0].path, "D:\\work\\app\\node_modules");
    assert_eq!(dev[0].items[0].size, MIN_GROUP_ITEM_SIZE * 2);
}
