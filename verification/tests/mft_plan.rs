use csd_cleaner::mft_plan::{build_descendant_plan, walk_from_records, MftRecord};
use csd_cleaner::scan_tree::build_scan_result;

fn rec(file_id: u64, parent_file_id: u64, name: &str, is_dir: bool, size: u64) -> MftRecord {
    MftRecord { file_id, parent_file_id, name: name.to_string(), is_dir, size }
}

fn volume() -> Vec<MftRecord> {
    vec![
        rec(10, 5, "docs", true, 0),
        rec(11, 10, "a.txt", false, 30),
        rec(12, 10, "deep", true, 0),
        rec(13, 12, "b.bin", false, 70),
        rec(14, 5, "top.log", false, 5),
        rec(20, 99, "elsewhere", true, 0),
        rec(21, 20, "c.txt", false, 1000),
    ]
}

#[test]
fn plan_holds_exactly_the_records_below_the_root() {
    let recs = volume();
    let plan = build_descendant_plan(&recs, 5, "C:\\");
    let mut paths: Vec<String> = plan.iter().map(|e| e.path.clone()).collect();
    paths.sort();
    assert_eq!(paths, vec!["C:\\docs", "C:\\docs\\a.txt", "C:\\docs\\deep", "C:\\docs\\deep\\b.bin", "C:\\top.log"]);
}

#[test]
fn plan_takes_each_id_once() {
    let mut recs = volume();
    recs.push(rec(11, 10, "a-again.txt", false, 30));
    let plan = build_descendant_plan(&recs, 5, "C:\\data");
    let count = plan.iter().filter(|e| recs[e.record].file_id == 11).count();
    assert_eq!(count, 1);
    assert!(plan.iter().any(|e| e.path == "C:\\data\\docs\\a.txt"));
}

#[test]
fn records_assemble_into_a_scan_result() {
    let recs = volume();
    let walk = walk_from_records(&recs, 5, "C:\\");
    assert_eq!(walk.dirs.len(), 2);
    assert_eq!(walk.files.len(), 3);
    let r = build_scan_result("C:\\", walk.dirs, &walk.files, Vec::new(), 0, None, None, Some(5), 0, None);
    assert_eq!(r.total_files, 3);
    assert_eq!(r.total_size, 105);
    let docs = r.directories.iter().find(|d| d.path == "C:\\docs").unwrap();
    assert_eq!(docs.size, 100);
    assert_eq!(docs.file_count, 2);
    assert_eq!(docs.children.len(), 1);
    assert_eq!(docs.children[0].path, "C:\\docs\\deep");
}
