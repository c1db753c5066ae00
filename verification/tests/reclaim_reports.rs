use csd_cleaner::reclaim::{
    component_cleanup_result, emptied_directory_result, extract_number_from_line, hibernation_disabled_result,
    pagefile_relocated_result, parse_dism_freed_bytes, parse_vss_usage, parse_vssadmin_freed, reclaim_opportunities,
    relocate_paging_entries, split_lines, split_words,
};

#[test]
fn numbers_are_read_from_the_first_run_of_digits() {
    assert_eq!(extract_number_from_line("Freed 1,234.5 MB"), Some(12345));
    assert_eq!(extract_number_from_line("no digits here"), None);
    assert_eq!(extract_number_from_line("a 12 b 34"), Some(12));
}

#[test]
fn dism_reports_are_scaled_by_their_unit() {
    assert_eq!(parse_dism_freed_bytes("Starting\nFreed 2 GB of space\n"), 2 * 1024 * 1024 * 1024);
    assert_eq!(parse_dism_freed_bytes("Cleanup freed 300 MB"), 300 * 1024 * 1024);
    assert_eq!(parse_dism_freed_bytes("removed 7 KB"), 7 * 1024);
    assert_eq!(parse_dism_freed_bytes("nothing to report"), 0);
}

#[test]
fn vssadmin_reports_are_read() {
    assert_eq!(parse_vssadmin_freed("Shadow copy storage freed: 5 GB"), 5 * 1024 * 1024 * 1024);
    assert_eq!(parse_vssadmin_freed("freed 10 KB"), 10);
    assert_eq!(
        parse_vss_usage("Shadow Copy Storage association\r\n   Used Shadow Copy Storage space: 3 MB (1%)\r\n"),
        3 * 1024 * 1024
    );
}

#[test]
fn lines_split_on_newlines_and_drop_carriage_returns() {
    assert_eq!(split_lines("a\r\nb\nc"), vec!["a".to_string(), "b".to_string(), "c".to_string()]);
    assert_eq!(split_lines("a\n"), vec!["a".to_string()]);
}

#[test]
fn opportunities_list_the_five_actions() {
    let ops = reclaim_opportunities(10, 20, 30, false, 40, 50);
    assert_eq!(ops.len(), 5);
    assert_eq!(ops[0].id, "windows_update");
    assert_eq!(ops[1].reclaimable_size, 20);
    assert_eq!(ops[2].id, "hibernation");
    assert_eq!(ops[2].reclaimable_size, 0);
    assert!(ops.iter().all(|o| o.requires_admin));
    let ops = reclaim_opportunities(10, 20, 30, true, 40, 50);
    assert_eq!(ops[2].reclaimable_size, 30);
}

#[test]
fn results_report_what_was_freed() {
    let r = emptied_directory_result(100, 30, "done");
    assert!(r.success);
    assert_eq!(r.freed_bytes, 70);
    let r = emptied_directory_result(30, 100, "done");
    assert_eq!(r.freed_bytes, 0);
    let r = hibernation_disabled_result(4096);
    assert_eq!(r.freed_bytes, 4096);
    assert_eq!(r.message, "休眠已禁用，释放 4096 字节");
    let r = component_cleanup_result(true, 12);
    assert_eq!(r.freed_bytes, 12);
}

#[test]
fn words_split_on_any_unicode_whitespace() {
    assert_eq!(split_words("  a\tb\u{3000}c  "), vec!["a".to_string(), "b".to_string(), "c".to_string()]);
    assert!(split_words(" \n ").is_empty());
}

#[test]
fn the_page_file_of_c_moves_to_the_target_drive() {
    let entries = vec!["c:\\pagefile.sys 1024 4096".to_string(), "E:\\pagefile.sys 0 0".to_string()];
    assert_eq!(
        relocate_paging_entries(&entries, "D:"),
        vec!["D:\\pagefile.sys 1024 4096".to_string(), "E:\\pagefile.sys 0 0".to_string()]
    );
    let bare = vec!["C:\\pagefile.sys".to_string()];
    assert_eq!(relocate_paging_entries(&bare, "D"), vec!["D:\\pagefile.sys 0 0".to_string()]);
    let elsewhere = vec!["E:\\pagefile.sys 0 0".to_string()];
    assert_eq!(
        relocate_paging_entries(&elsewhere, "D::"),
        vec!["E:\\pagefile.sys 0 0".to_string(), "D:\\pagefile.sys 0 0".to_string()]
    );
    let r = pagefile_relocated_result("D:\\pagefile.sys", 8192);
    assert!(r.requires_reboot);
    assert_eq!(r.freed_bytes, 8192);
    assert_eq!(r.message, "页面文件将在重启后迁移到 D:\\pagefile.sys（当前大小 8192 字节）");
}
