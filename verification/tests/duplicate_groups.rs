use csd_cleaner::duplicate_cascade::{DuplicateCascade, HashStage};
use csd_cleaner::duplicates::{
    make_group, order_by_waste, partial_hash, partial_offsets, partial_sample_len, quick_hash, saturating_mul,
    size_buckets, split_by_hash, u64_le_bytes, ContentHasher, DuplicateGroup, DuplicateScanRegistry,
    DUPLICATE_MIN_SIZE, PARTIAL_HASH_BYTES, QUICK_HASH_BYTES,
};
use csd_cleaner::file_info::FileInfo;
use csd_cleaner::session::CancellationToken;

fn info(path: &str, size: u64, modified_at: &str, is_symlink: bool) -> FileInfo {
    FileInfo {
        path: path.to_string(),
        name: path.rsplit('\\').next().unwrap().to_string(),
        size,
        extension: String::new(),
        modified_at: modified_at.to_string(),
        is_readonly: false,
        is_symlink,
        link_target: None,
    }
}

#[test]
fn constants_match_the_documented_sizes() {
    assert_eq!(DUPLICATE_MIN_SIZE, 100 * 1024 * 1024);
    assert_eq!(QUICK_HASH_BYTES, 64 * 1024);
    assert_eq!(PARTIAL_HASH_BYTES, 128 * 1024);
}

#[test]
fn buckets_hold_sizes_shared_by_two_files_largest_first() {
    let cands = vec![
        info("C:\\a", 500, "", false),
        info("C:\\b", 900, "", false),
        info("C:\\c", 500, "", false),
        info("C:\\d", 900, "", false),
        info("C:\\e", 700, "", false),
        info("C:\\f", 900, "", true),
        info("C:\\g", 50, "", false),
        info("C:\\h", 50, "", false),
    ];
    let buckets = size_buckets(&cands, 100);
    assert_eq!(buckets, vec![(900, vec![1, 3]), (500, vec![0, 2])]);
    assert!(size_buckets(&cands, 1000).is_empty());
    let low = size_buckets(&cands, 1);
    assert_eq!(low.len(), 3);
    assert_eq!(low[2], (50, vec![6, 7]));
}

#[test]
fn equal_hashes_form_groups_in_order_of_first_appearance() {
    let hashes = vec![Some(7), Some(3), None, Some(7), Some(3), Some(9), Some(7)];
    assert_eq!(split_by_hash(&hashes), vec![vec![0, 3, 6], vec![1, 4]]);
    assert!(split_by_hash(&vec![Some(1), Some(2), None, None]).is_empty());
}

#[test]
fn groups_list_newest_first_and_count_wasted_bytes() {
    let cands = vec![
        info("C:\\old", 1000, "2023-01-01 10:00:00", false),
        info("C:\\new", 1000, "2024-05-01 10:00:00", false),
        info("C:\\mid", 1000, "2023-06-01 10:00:00", false),
        info("C:\\tie", 1000, "2023-06-01 10:00:00", false),
    ];
    let g = make_group(1000, &cands, &vec![0, 1, 2, 3]);
    let paths: Vec<&str> = g.files.iter().map(|f| f.path.as_str()).collect();
    assert_eq!(paths, vec!["C:\\new", "C:\\mid", "C:\\tie", "C:\\old"]);
    assert_eq!(g.size, 1000);
    assert_eq!(g.wasted_bytes, 3000);
    let pair = make_group(1000, &cands, &vec![2, 0]);
    assert_eq!(pair.wasted_bytes, pair.size);
}

#[test]
fn wasted_bytes_saturate() {
    assert_eq!(saturating_mul(u64::MAX / 2, 3), u64::MAX);
    assert_eq!(saturating_mul(5, 0), 0);
    assert_eq!(saturating_mul(6, 7), 42);
}

fn group(size: u64, wasted: u64) -> DuplicateGroup {
    DuplicateGroup { size, files: vec![], wasted_bytes: wasted }
}

#[test]
fn groups_are_ordered_by_waste_stably() {
    let groups = vec![group(1, 10), group(2, 30), group(3, 10), group(4, 20)];
    let ordered = order_by_waste(&groups);
    let sizes: Vec<u64> = ordered.iter().map(|g| g.size).collect();
    assert_eq!(sizes, vec![2, 4, 1, 3]);
}

#[test]
fn quick_hash_depends_on_content_only() {
    let a: Vec<u8> = (0..1000u32).map(|i| (i % 251) as u8).collect();
    let b = a.clone();
    let mut c = a.clone();
    c[999] ^= 1;
    assert_eq!(quick_hash(&a), quick_hash(&b));
    assert_ne!(quick_hash(&a), quick_hash(&c));
    let mut h = ContentHasher::new();
    h.update(&a[..300]);
    h.update(&a[300..]);
    assert_eq!(h.digest(), quick_hash(&a));
}

#[test]
fn sample_offsets_cover_start_middle_and_end() {
    assert_eq!(partial_sample_len(1000), 1000);
    assert_eq!(partial_offsets(1000), vec![0]);
    let len = 512 * 1024;
    assert_eq!(partial_sample_len(len), 128 * 1024);
    assert_eq!(partial_offsets(len), vec![0, 192 * 1024, 384 * 1024]);
    assert_eq!(partial_offsets(128 * 1024 + 2), vec![0, 1, 2]);
}

#[test]
fn sample_hash_separates_same_head_with_different_middle() {
    let len: u64 = 512 * 1024;
    let head = vec![1u8; 16];
    let mid_a = vec![2u8; 16];
    let mid_b = vec![3u8; 16];
    let a = vec![(0u64, head.clone()), (192 * 1024, mid_a.clone())];
    let b = vec![(0u64, head.clone()), (192 * 1024, mid_b)];
    let a2 = vec![(0u64, head), (192 * 1024, mid_a)];
    assert_ne!(partial_hash(len, &a), partial_hash(len, &b));
    assert_eq!(partial_hash(len, &a), partial_hash(len, &a2));
    assert_ne!(partial_hash(len, &a), partial_hash(len + 1, &a));
}

#[test]
fn le_bytes_are_least_significant_first() {
    assert_eq!(u64_le_bytes(0x0102_0304_0506_0708), vec![8, 7, 6, 5, 4, 3, 2, 1]);
    assert_eq!(u64_le_bytes(0x0102_0304_0506_0708), 0x0102_0304_0506_0708u64.to_le_bytes().to_vec());
}

#[test]
fn registry_finish_only_removes_matching_token() {
    let mut registry = DuplicateScanRegistry::new();
    let first = registry.begin_scan(r"C:/Foo/");
    let second = registry.begin_scan(r"c:\foo");

    assert!(first.is_cancelled());
    registry.finish_scan(r"C:\foo\", &first);
    assert_eq!(registry.len(), 1);
    registry.finish_scan(r"C:\foo\", &second);
    assert_eq!(registry.len(), 0);
}

#[test]
fn cancel_reaches_the_running_search() {
    let mut registry = DuplicateScanRegistry::new();
    let token = registry.begin_scan("D:\\");
    registry.cancel("d:/");
    assert!(token.is_cancelled());
    let other = registry.begin_scan("E:\\");
    registry.cancel("F:\\");
    assert!(!other.is_cancelled());
}

#[test]
fn cascade_splits_by_each_hash_in_turn() {
    let mut c = DuplicateCascade::new(vec![(500, vec![0, 1, 2, 3]), (200, vec![4, 5])]);
    let t = c.next_task().expect("task");
    assert_eq!((t.stage, t.size, t.members.clone()), (HashStage::Quick, 500, vec![0, 1, 2, 3]));
    c.record_hashes(&vec![Some(1), Some(2), Some(1), Some(1)]);
    let t = c.next_task().expect("task");
    assert_eq!((t.stage, t.members.clone()), (HashStage::Partial, vec![0, 2, 3]));
    c.record_hashes(&vec![Some(9), Some(9), None]);
    let t = c.next_task().expect("task");
    assert_eq!((t.stage, t.members.clone()), (HashStage::Full, vec![0, 2]));
    c.record_hashes(&vec![Some(5), Some(5)]);
    assert_eq!(c.groups().clone(), vec![(500, vec![0, 2])]);
    let t = c.next_task().expect("task");
    assert_eq!((t.stage, t.size, t.members.clone()), (HashStage::Quick, 200, vec![4, 5]));
    c.record_hashes(&vec![Some(1), Some(2)]);
    assert!(c.next_task().is_none());
    assert_eq!(c.into_groups(), vec![(500, vec![0, 2])]);
}

#[test]
fn a_copy_of_the_token_ends_the_search_and_an_unrelated_token_does_not() {
    let mut registry = DuplicateScanRegistry::new();
    let token = registry.begin_scan("D:\\data");
    registry.finish_scan("d:/data", &CancellationToken::new());
    assert_eq!(registry.len(), 1);
    let copy = token.clone();
    registry.finish_scan("d:/data/", &copy);
    assert_eq!(registry.len(), 0);
}
