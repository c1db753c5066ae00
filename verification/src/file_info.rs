//! The records a disk scan produces: files, the directory tree and the scan
//! summary.
use vstd::prelude::*;
use crate::env_fingerprint::EnvFingerprint;
use crate::safety::MigrationSafety;

verus! {

/// One large file found by a scan.
#[derive(Debug, Clone)]
pub struct FileInfo {
    pub path: String,
    pub name: String,
    pub size: u64,
    pub extension: String,
    pub modified_at: String,
    pub is_readonly: bool,
    pub is_symlink: bool,
    pub link_target: Option<String>,
}

/// One directory of the scanned tree with its aggregated totals.
#[derive(Debug)]
pub struct DirectoryNode {
    pub path: String,
    pub name: String,
    pub size: u64,
    pub file_count: usize,
    pub dir_count: usize,
    pub children: Vec<DirectoryNode>,
    pub has_children: bool,
    pub is_symlink: bool,
    pub link_target: Option<String>,
    pub safety: Option<MigrationSafety>,
    pub modified_time: Option<u64>,
    pub file_id: Option<u64>,
}

/// The result of scanning one volume or directory.
#[derive(Debug)]
pub struct ScanResult {
    pub root_path: String,
    pub total_size: u64,
    pub system_reserved_bytes: u64,
    pub total_files: usize,
    pub total_dirs: usize,
    pub scan_duration_ms: u64,
    pub directories: Vec<DirectoryNode>,
    pub large_files: Vec<FileInfo>,
    pub inaccessible_count: usize,
    pub scan_backend: Option<String>,
    pub root_file_id: Option<u64>,
    pub usn_journal_id: Option<u64>,
    pub usn_next_usn: Option<i64>,
    /// Cache schema version; an old cache without one reads as `0` and is stale.
    pub cache_schema_version: u32,
    /// The environment the result was produced in.
    pub env_fingerprint: EnvFingerprint,
    /// Whether the scan finished and was stored.
    pub scan_completed: bool,
}

/// What an incremental scan does with one directory.
#[derive(Debug, Clone, Copy, PartialEq, Eq, Hash, Structural)]
pub enum RescanDecision {
    Recursive,
    DirectFilesOnly,
    Skip,
}

/// A copy of an optional string.
pub fn copy_opt_string(s: &Option<String>) -> (r: Option<String>)
    ensures
        r == *s,
{
    match s {
        Some(x) => Some(x.clone()),
        None => None,
    }
}

/// A copy of a file record.
pub fn copy_file_info(f: &FileInfo) -> (r: FileInfo)
    ensures
        r == *f,
{
    FileInfo {
        path: f.path.clone(),
        name: f.name.clone(),
        size: f.size,
        extension: f.extension.clone(),
        modified_at: f.modified_at.clone(),
        is_readonly: f.is_readonly,
        is_symlink: f.is_symlink,
        link_target: copy_opt_string(&f.link_target),
    }
}

/// Files ordered by size, largest first.
pub open spec fn files_sorted_desc(s: Seq<FileInfo>) -> bool {
    forall|i: int, j: int| 0 <= i < j < s.len() ==> s[i].size >= s[j].size
}

/// Stable sort of files by size, largest first.
pub fn sort_files_by_size_desc(files: &mut Vec<FileInfo>)
    ensures
        files_sorted_desc(final(files)@),
        final(files)@.to_multiset() == old(files)@.to_multiset(),
        final(files)@.len() == old(files)@.len(),
{
    let n = files.len();
    if n == 0 {
        return;
    }
    let mut i: usize = 1;
    while i < n
        invariant
            1 <= i <= n,
            files.len() == n,
            files_sorted_desc(files@.take(i as int)),
            files@.to_multiset() == old(files)@.to_multiset(),
        decreases n - i,
    {
        let mut j: usize = i;
        assert forall|a: int, b: int| 0 <= a < b <= i && a != j && b != j implies #[trigger] files@[a].size >= #[trigger] files@[b].size by {
            assert(files@.take(i as int)[a] == files@[a]);
            assert(files@.take(i as int)[b] == files@[b]);
        }
        while j > 0 && files[j - 1].size < files[j].size
            invariant
                0 <= j <= i < n,
                files.len() == n,
                forall|a: int, b: int|
                    0 <= a < b <= i && a != j && b != j ==> files@[a].size >= files@[b].size,
                forall|b: int| j < b <= i ==> files@[j as int].size > files@[b].size,
                files@.to_multiset() == old(files)@.to_multiset(),
            decreases j,
        {
            let ghost before = files@;
            let x = files.remove(j);
            files.insert(j - 1, x);
            proof {
                vstd::seq_lib::to_multiset_remove(before, j as int);
                vstd::seq_lib::to_multiset_insert(before.remove(j as int), j - 1, x);
                before.to_multiset_ensures();
                assert(before.to_multiset().contains(x));
                assert(before.to_multiset().remove(x).insert(x) =~= before.to_multiset());
                assert(files@ =~= before.update(j - 1, before[j as int]).update(j as int, before[j - 1]));
            }
            j = j - 1;
        }
        proof {
            assert forall|a: int, b: int|
                0 <= a < b < i + 1 implies #[trigger] files@.take(i + 1)[a].size >= #[trigger] files@.take(
                i + 1,
            )[b].size by {
                if a == j && b > j {
                } else if b == j {
                    if j > 0 {
                    }
                }
            }
        }
        i = i + 1;
    }
    assert(files@.take(n as int) =~= files@);
}

} // verus!
