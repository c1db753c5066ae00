//! Change detection against the file system, one directory level at a
//! time: which entries of a directory are new, changed or unchanged against
//! the cached tree, and which cached directories are gone.
use vstd::prelude::*;
use crate::file_info::DirectoryNode;
use crate::incremental::{change_status_of, check_directory_changes, ChangeStatus, ChangedDirectory};
use crate::path_utils::{normalized_path_key_str, path_key};
use crate::text::str_eq;

verus! {

/// One entry of the directory being compared, as the file system gave it:
/// whether it is a directory (through a link, what the link points to; an
/// entry whose metadata could not be read counts as no directory) and its
/// modification time in seconds since the epoch, when known.
pub struct DirEntryInfo {
    pub path: String,
    pub is_directory: bool,
    pub modified: Option<u64>,
}

/// What the comparison does with one entry of the directory.
#[derive(Debug, Clone, Copy, PartialEq, Eq, Structural)]
pub enum EntryOutcome {
    /// Not a directory: ignored.
    Skip,
    /// The entry is reported with this status.
    Changed(ChangeStatus),
    /// Unchanged: its cached subtree, at this position of the cached level,
    /// is compared with the entry's own listing.
    Descend(usize),
}

/// The last cached node among the first `n` whose key is `key`, the node
/// of the directory compared itself (key `current`) left out.
pub open spec fn last_cached_match(cached: Seq<DirectoryNode>, current: Seq<char>, key: Seq<char>, n: int) -> Option<int>
    decreases n,
{
    if n <= 0 {
        None
    } else if path_key(cached[n - 1].path@) == key && path_key(cached[n - 1].path@) != current {
        Some(n - 1)
    } else {
        last_cached_match(cached, current, key, n - 1)
    }
}

proof fn lemma_last_cached_match_bound(cached: Seq<DirectoryNode>, current: Seq<char>, key: Seq<char>, n: int)
    ensures
        last_cached_match(cached, current, key, n) matches Some(j) ==> 0 <= j < n && path_key(cached[j].path@) == key
            && path_key(cached[j].path@) != current,
    decreases n,
{
    if n > 0 {
        lemma_last_cached_match_bound(cached, current, key, n - 1);
    }
}

/// The outcome of one entry of the directory at `current_path` against its
/// cached level.
pub open spec fn entry_outcome(cached: Seq<DirectoryNode>, current_path: Seq<char>, e: DirEntryInfo, wall_now: u64) -> EntryOutcome {
    if !e.is_directory {
        EntryOutcome::Skip
    } else {
        match last_cached_match(cached, path_key(current_path), path_key(e.path@), cached.len() as int) {
            Some(j) => match change_status_of(cached[j].modified_time, true, e.modified, wall_now) {
                ChangeStatus::Unchanged => EntryOutcome::Descend(j as usize),
                st => EntryOutcome::Changed(st),
            },
            None => EntryOutcome::Changed(ChangeStatus::New),
        }
    }
}

/// A cached node of the level (other than the directory itself) that no
/// directory entry matches any more.
pub open spec fn cached_gone(cached: Seq<DirectoryNode>, current_path: Seq<char>, entries: Seq<DirEntryInfo>, j: int) -> bool {
    &&& path_key(cached[j].path@) != path_key(current_path)
    &&& !exists|k: int| 0 <= k < entries.len() && (#[trigger] entries[k]).is_directory && path_key(entries[k].path@)
        == path_key(cached[j].path@)
}

/// One level of the comparison of a cached tree with the file system: the
/// outcome of each entry of the directory at `current_path` (in listing
/// order), and the positions, ascending, of the cached nodes that are gone.
/// The changes of the level are the entries' outcomes in order, each
/// unchanged directory followed by the changes of its own level, then the
/// gone nodes as deleted.
pub fn detect_level_changes(cached: &Vec<DirectoryNode>, current_path: &str, entries: &Vec<DirEntryInfo>, wall_now: u64) -> (r: (
    Vec<EntryOutcome>,
    Vec<usize>,
))
    ensures
        r.0@.len() == entries@.len(),
        forall|k: int| 0 <= k < entries@.len() ==> #[trigger] r.0@[k] == entry_outcome(cached@, current_path@, entries@[k], wall_now),
        forall|a: int, b: int| 0 <= a < b < r.1@.len() ==> #[trigger] r.1@[a] < #[trigger] r.1@[b],
        forall|a: int| 0 <= a < r.1@.len() ==> #[trigger] r.1@[a] < cached@.len(),
        forall|j: int| 0 <= j < cached@.len() ==> (r.1@.contains(j as usize) <==> cached_gone(cached@, current_path@, entries@, j)),
{
    let current_key = normalized_path_key_str(current_path);
    let mut cached_keys: Vec<String> = Vec::new();
    let mut j: usize = 0;
    while j < cached.len()
        invariant
            j <= cached@.len(),
            cached_keys@.len() == j,
            forall|q: int| 0 <= q < j ==> #[trigger] cached_keys@[q]@ == path_key(cached@[q].path@),
        decreases cached@.len() - j,
    {
        cached_keys.push(normalized_path_key_str(cached[j].path.as_str()));
        j = j + 1;
    }
    let mut entry_keys: Vec<String> = Vec::new();
    let mut k: usize = 0;
    while k < entries.len()
        invariant
            k <= entries@.len(),
            entry_keys@.len() == k,
            forall|q: int| 0 <= q < k ==> #[trigger] entry_keys@[q]@ == path_key(entries@[q].path@),
        decreases entries@.len() - k,
    {
        entry_keys.push(normalized_path_key_str(entries[k].path.as_str()));
        k = k + 1;
    }
    let mut outcomes: Vec<EntryOutcome> = Vec::new();
    let mut k: usize = 0;
    while k < entries.len()
        invariant
            k <= entries@.len(),
            entry_keys@.len() == entries@.len(),
            cached_keys@.len() == cached@.len(),
            current_key@ == path_key(current_path@),
            forall|q: int| 0 <= q < entries@.len() ==> #[trigger] entry_keys@[q]@ == path_key(entries@[q].path@),
            forall|q: int| 0 <= q < cached@.len() ==> #[trigger] cached_keys@[q]@ == path_key(cached@[q].path@),
            outcomes@.len() == k,
            forall|q: int| 0 <= q < k ==> #[trigger] outcomes@[q] == entry_outcome(cached@, current_path@, entries@[q], wall_now),
        decreases entries@.len() - k,
    {
        let e = &entries[k];
        let outcome = if !e.is_directory {
            EntryOutcome::Skip
        } else {
            let mut found: Option<usize> = None;
            let mut j: usize = 0;
            while j < cached.len()
                invariant
                    j <= cached@.len(),
                    k < entries@.len(),
                    entry_keys@.len() == entries@.len(),
                    cached_keys@.len() == cached@.len(),
                    forall|q: int| 0 <= q < cached@.len() ==> #[trigger] cached_keys@[q]@ == path_key(cached@[q].path@),
                    current_key@ == path_key(current_path@),
                    entry_keys@[k as int]@ == path_key(entries@[k as int].path@),
                    found == match last_cached_match(cached@, path_key(current_path@), path_key(entries@[k as int].path@), j as int) {
                        Some(x) => Some(x as usize),
                        None => None::<usize>,
                    },
                decreases cached@.len() - j,
            {
                if str_eq(cached_keys[j].as_str(), entry_keys[k].as_str()) && !str_eq(cached_keys[j].as_str(), current_key.as_str()) {
                    found = Some(j);
                }
                j = j + 1;
            }
            proof {
                lemma_last_cached_match_bound(cached@, path_key(current_path@), path_key(entries@[k as int].path@), cached@.len() as int);
            }
            match found {
                Some(x) => {
                    let st = check_directory_changes(&cached[x], true, e.modified, wall_now);
                    match st {
                        ChangeStatus::Unchanged => EntryOutcome::Descend(x),
                        _ => EntryOutcome::Changed(st),
                    }
                },
                None => EntryOutcome::Changed(ChangeStatus::New),
            }
        };
        outcomes.push(outcome);
        k = k + 1;
    }
    let mut gone: Vec<usize> = Vec::new();
    let mut j: usize = 0;
    while j < cached.len()
        invariant
            j <= cached@.len(),
            entry_keys@.len() == entries@.len(),
            cached_keys@.len() == cached@.len(),
            current_key@ == path_key(current_path@),
            forall|q: int| 0 <= q < entries@.len() ==> #[trigger] entry_keys@[q]@ == path_key(entries@[q].path@),
            forall|q: int| 0 <= q < cached@.len() ==> #[trigger] cached_keys@[q]@ == path_key(cached@[q].path@),
            forall|a: int, b: int| 0 <= a < b < gone@.len() ==> #[trigger] gone@[a] < #[trigger] gone@[b],
            forall|a: int| 0 <= a < gone@.len() ==> #[trigger] gone@[a] < j,
            forall|q: int| 0 <= q < j ==> (gone@.contains(q as usize) <==> cached_gone(cached@, current_path@, entries@, q)),
        decreases cached@.len() - j,
    {
        let mut listed = false;
        let mut k: usize = 0;
        while k < entries.len()
            invariant
                k <= entries@.len(),
                j < cached@.len(),
                entry_keys@.len() == entries@.len(),
                cached_keys@.len() == cached@.len(),
                forall|q: int| 0 <= q < entries@.len() ==> #[trigger] entry_keys@[q]@ == path_key(entries@[q].path@),
                cached_keys@[j as int]@ == path_key(cached@[j as int].path@),
                listed == exists|q: int| 0 <= q < k && (#[trigger] entries@[q]).is_directory && path_key(entries@[q].path@)
                    == path_key(cached@[j as int].path@),
            decreases entries@.len() - k,
        {
            if entries[k].is_directory && str_eq(entry_keys[k].as_str(), cached_keys[j].as_str()) {
                listed = true;
            }
            k = k + 1;
        }
        let ghost before = gone@;
        if !listed && !str_eq(cached_keys[j].as_str(), current_key.as_str()) {
            gone.push(j);
            proof {
                assert forall|q: int| 0 <= q < j + 1 implies (gone@.contains(q as usize) <==> cached_gone(cached@, current_path@, entries@, q)) by {
                    if q < j {
                        if before.contains(q as usize) {
                            let w = choose|w: int| 0 <= w < before.len() && before[w] == q as usize;
                            assert(gone@[w] == before[w]);
                        }
                        if gone@.contains(q as usize) {
                            let w = choose|w: int| 0 <= w < gone@.len() && gone@[w] == q as usize;
                            if w < before.len() {
                                assert(gone@[w] == before[w]);
                            }
                        }
                    } else {
                        assert(gone@[before.len() as int] == j);
                    }
                }
            }
        } else {
            proof {
                assert forall|q: int| 0 <= q < j + 1 implies (gone@.contains(q as usize) <==> cached_gone(cached@, current_path@, entries@, q)) by {
                    if q == j {
                        if gone@.contains(q as usize) {
                            let w = choose|w: int| 0 <= w < gone@.len() && gone@[w] == q as usize;
                        }
                    }
                }
            }
        }
        j = j + 1;
    }
    (outcomes, gone)
}

/// The cached totals of the scan root's own files: the size and file count
/// of the first top-level node whose path names the root, else zero.
pub open spec fn cached_root_totals_of(dirs: Seq<DirectoryNode>, root_path: Seq<char>, i: int) -> (u64, usize)
    decreases dirs.len() - i,
{
    if i < 0 || i >= dirs.len() {
        (0, 0)
    } else if path_key(dirs[i].path@) == path_key(root_path) {
        (dirs[i].size, dirs[i].file_count)
    } else {
        cached_root_totals_of(dirs, root_path, i + 1)
    }
}

/// The cached totals of the scan root's own files (see
/// [`cached_root_totals_of`]).
pub fn cached_root_totals(dirs: &Vec<DirectoryNode>, root_path: &str) -> (r: (u64, usize))
    ensures
        r == cached_root_totals_of(dirs@, root_path@, 0),
{
    let root_key = normalized_path_key_str(root_path);
    let mut i: usize = 0;
    while i < dirs.len()
        invariant
            i <= dirs@.len(),
            root_key@ == path_key(root_path@),
            cached_root_totals_of(dirs@, root_path@, 0) == cached_root_totals_of(dirs@, root_path@, i as int),
        decreases dirs@.len() - i,
    {
        let k = normalized_path_key_str(dirs[i].path.as_str());
        if str_eq(k.as_str(), root_key.as_str()) {
            return (dirs[i].size, dirs[i].file_count);
        }
        i = i + 1;
    }
    (0, 0)
}

/// How the detected changes split: the positions of the directories to
/// rescan (every change but a deletion) and the paths of the deleted ones,
/// each in order.
pub open spec fn rescan_positions(changes: Seq<ChangedDirectory>, n: int) -> Seq<int>
    decreases n,
{
    if n <= 0 {
        Seq::empty()
    } else if changes[n - 1].status != ChangeStatus::Deleted {
        rescan_positions(changes, n - 1).push(n - 1)
    } else {
        rescan_positions(changes, n - 1)
    }
}

/// The paths of the deleted directories among the first `n` changes.
pub open spec fn deleted_paths_of(changes: Seq<ChangedDirectory>, n: int) -> Seq<Seq<char>>
    decreases n,
{
    if n <= 0 {
        Seq::empty()
    } else if changes[n - 1].status == ChangeStatus::Deleted {
        deleted_paths_of(changes, n - 1).push(changes[n - 1].path@)
    } else {
        deleted_paths_of(changes, n - 1)
    }
}

/// What an incremental scan does with the changes it detected.
pub struct ChangeSummary {
    /// Positions of the changes to rescan, in order.
    pub rescan: Vec<usize>,
    /// Paths of the deleted directories, in order.
    pub deleted_paths: Vec<String>,
    /// Every change, the root's own files counting as one when they changed.
    pub total_changes: usize,
}

/// Splits the detected changes into rescans and deletions and counts them.
pub fn summarize_changes(changes: &Vec<ChangedDirectory>, root_files_changed: bool) -> (r: ChangeSummary)
    requires
        changes@.len() < usize::MAX,
    ensures
        Seq::new(r.rescan@.len(), |k: int| r.rescan@[k] as int) == rescan_positions(changes@, changes@.len() as int),
        Seq::new(r.deleted_paths@.len(), |k: int| r.deleted_paths@[k]@) == deleted_paths_of(changes@, changes@.len() as int),
        r.total_changes == changes@.len() + if root_files_changed { 1int } else { 0int },
{
    let mut rescan: Vec<usize> = Vec::new();
    let mut deleted: Vec<String> = Vec::new();
    let mut i: usize = 0;
    while i < changes.len()
        invariant
            i <= changes@.len(),
            Seq::new(rescan@.len(), |k: int| rescan@[k] as int) == rescan_positions(changes@, i as int),
            Seq::new(deleted@.len(), |k: int| deleted@[k]@) == deleted_paths_of(changes@, i as int),
        decreases changes@.len() - i,
    {
        if changes[i].status == ChangeStatus::Deleted {
            let ghost before = Seq::new(deleted@.len(), |k: int| deleted@[k]@);
            deleted.push(changes[i].path.clone());
            assert(Seq::new(deleted@.len(), |k: int| deleted@[k]@) =~= before.push(changes@[i as int].path@));
        } else {
            let ghost before = Seq::new(rescan@.len(), |k: int| rescan@[k] as int);
            rescan.push(i);
            assert(Seq::new(rescan@.len(), |k: int| rescan@[k] as int) =~= before.push(i as int));
        }
        i = i + 1;
    }
    let total_changes = if root_files_changed { changes.len() + 1 } else { changes.len() };
    ChangeSummary { rescan, deleted_paths: deleted, total_changes }
}

} // verus!
