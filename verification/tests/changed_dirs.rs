use csd_cleaner::changed_dirs::{collect_direct_file_changed_dirs, normalize_changed_dirs, normalize_recursive_changed_dirs};

fn strings(v: &[&str]) -> Vec<String> {
    v.iter().map(|s| s.to_string()).collect()
}

#[test]
fn recursive_rescans_keep_the_deepest_directory_of_each_line() {
    let cands = strings(&["C:\\r\\a", "C:\\r\\a\\b", "C:\\r\\c", "C:\\r", "D:\\x", "C:\\rx"]);
    assert_eq!(normalize_recursive_changed_dirs("C:\\r", &cands), strings(&["C:\\r\\a\\b", "C:\\r\\c"]));
}

#[test]
fn direct_rescans_go_shallowest_first_in_path_order() {
    let cands = strings(&["C:\\r\\a\\b", "C:\\r\\c", "C:\\r\\a", "C:\\r\\", "C:\\other"]);
    assert_eq!(collect_direct_file_changed_dirs("C:\\r", &cands), strings(&["C:\\r\\a", "C:\\r\\c", "C:\\r\\a\\b"]));
}

#[test]
fn paths_order_by_components_and_drive_letters_fold() {
    let cands = strings(&["c:\\r\\b", "C:\\r\\B", "C:\\r\\a"]);
    assert_eq!(collect_direct_file_changed_dirs("C:\\R", &cands), strings(&["C:\\r\\B", "C:\\r\\a", "c:\\r\\b"]));
    assert!(normalize_recursive_changed_dirs("C:\\r", &strings(&["c:\\r\\"])).is_empty());
    assert_eq!(normalize_recursive_changed_dirs("C:\\r", &strings(&["c:\\R\\"])), strings(&["c:\\R\\"]));
}

#[test]
fn journal_rescans_keep_the_topmost_directory_of_each_line() {
    let recursive = strings(&["C:\\r\\a\\b", "C:\\r\\z"]);
    let direct = strings(&["C:\\r\\a", "C:\\r", "E:\\q"]);
    assert_eq!(normalize_changed_dirs("C:\\r", &recursive, &direct), strings(&["C:\\r\\a", "C:\\r\\z"]));
}
