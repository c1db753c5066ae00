//! The decisions an incremental scan takes between its file-system steps:
//! whether the journal window after a scan must be read, whether its delta
//! is small enough to fold in, whether the cache still stands, which merge
//! to run, whether a merged tree is sound enough to keep, and which large
//! files survive a rescan.
use vstd::prelude::*;
use crate::by_size::{is_stable_key_order, stable_key_order};
use crate::file_info::{copy_file_info, FileInfo};
use crate::incremental::{parent_path, parent_path_spec, RescanMode, TreeMergeHealth};
use crate::path_utils::{key_prefix_holds, normalized_path_key_str, normalized_path_starts_with, path_key};
use crate::text::{decimal, owned, push_decimal, str_eq};

verus! {

// ---------------------------------------------------------------------------
// The change-journal window that a full scan leaves behind
// ---------------------------------------------------------------------------

/// The most changes that are folded into a finished scan; beyond that the
/// scan is run again.
pub const POST_SCAN_RESCAN_LIMIT: usize = 2048;

/// A position in a volume's change journal.
#[derive(Debug, Clone, Copy, PartialEq, Eq, Structural)]
pub struct UsnCheckpoint {
    pub journal_id: u64,
    pub next_usn: i64,
}

/// What to do with the journal records written while a scan ran.
#[derive(Debug, PartialEq, Eq)]
pub enum PostScanWindow {
    /// Keep the scan as it is.
    Complete,
    /// Run the scan again, for the given reason.
    Retry(String),
    /// Read the records from the start checkpoint on and fold them in.
    ReadDelta,
}

/// The window decision `w` for the given checkpoints: with either
/// checkpoint missing the scan stands; a journal that was replaced
/// meanwhile asks for another scan; a journal that did not move leaves the
/// scan as it is; otherwise its records are read.
pub open spec fn post_scan_window_is(start: Option<UsnCheckpoint>, end: Option<UsnCheckpoint>, w: PostScanWindow) -> bool {
    match (start, end) {
        (Some(s), Some(e)) => if s.journal_id != e.journal_id {
            w matches PostScanWindow::Retry(reason) && reason@ == "usn_journal_rotated_during_scan"@
        } else if e.next_usn <= s.next_usn {
            w is Complete
        } else {
            w is ReadDelta
        },
        _ => w is Complete,
    }
}

/// Decides what the journal window after a scan asks for (see
/// [`post_scan_window_is`]).
pub fn post_scan_window(start: Option<UsnCheckpoint>, end: Option<UsnCheckpoint>) -> (r: PostScanWindow)
    ensures
        post_scan_window_is(start, end, r),
{
    match (start, end) {
        (Some(s), Some(e)) => {
            if s.journal_id != e.journal_id {
                PostScanWindow::Retry(owned("usn_journal_rotated_during_scan"))
            } else if e.next_usn <= s.next_usn {
                PostScanWindow::Complete
            } else {
                PostScanWindow::ReadDelta
            }
        },
        _ => PostScanWindow::Complete,
    }
}

/// What to do with the changes read from the journal window.
#[derive(Debug, PartialEq, Eq)]
pub enum PostScanDelta {
    /// Nothing changed below the scan root.
    NoChanges,
    /// Too many changes: run the scan again, for the given reason.
    TooLarge(String),
    /// Rescan the changed directories and merge them in.
    Rescan,
}

/// The reason given when the window holds `total` changes, too many.
pub open spec fn too_large_reason(total: nat) -> Seq<char> {
    "post_scan_delta_too_large("@ + decimal(total) + ")"@
}

/// Judges the changes of the window: `changed_dirs` directories plus, when
/// `root_files_changed`, the files directly in the scan root.
pub fn post_scan_delta_verdict(changed_dirs: usize, root_files_changed: bool) -> (r: PostScanDelta)
    requires
        changed_dirs < usize::MAX,
    ensures
        ({
            let total = changed_dirs + (if root_files_changed { 1int } else { 0int });
            &&& (r is NoChanges <==> total == 0)
            &&& (r is TooLarge <==> total > POST_SCAN_RESCAN_LIMIT)
            &&& (r is Rescan <==> 0 < total <= POST_SCAN_RESCAN_LIMIT)
            &&& (r matches PostScanDelta::TooLarge(reason) ==> reason@ == too_large_reason(total as nat))
        }),
{
    let total: usize = if root_files_changed { changed_dirs + 1 } else { changed_dirs };
    if total == 0 {
        PostScanDelta::NoChanges
    } else if total > POST_SCAN_RESCAN_LIMIT {
        let mut reason = owned("post_scan_delta_too_large(");
        push_decimal(&mut reason, total as u64);
        crate::text::push_str(&mut reason, ")");
        PostScanDelta::TooLarge(reason)
    } else {
        PostScanDelta::Rescan
    }
}

// ---------------------------------------------------------------------------
// Choosing the merge and judging its result
// ---------------------------------------------------------------------------

/// Whether the cheap in-place refresh is enough: nothing was deleted and
/// every rescanned directory was refreshed for its own files only.
pub open spec fn direct_refresh_applies_spec(deleted: nat, modes: Seq<RescanMode>) -> bool {
    deleted == 0 && forall|i: int| 0 <= i < modes.len() ==> #[trigger] modes[i] == RescanMode::DirectFilesOnly
}

/// Whether the in-place refresh is enough (see
/// [`direct_refresh_applies_spec`]).
pub fn direct_refresh_applies(deleted: usize, modes: &Vec<RescanMode>) -> (r: bool)
    ensures
        r == direct_refresh_applies_spec(deleted as nat, modes@),
{
    if deleted != 0 {
        return false;
    }
    let mut i: usize = 0;
    while i < modes.len()
        invariant
            i <= modes.len(),
            forall|j: int| 0 <= j < i ==> #[trigger] modes@[j] == RescanMode::DirectFilesOnly,
        decreases modes.len() - i,
    {
        match modes[i] {
            RescanMode::DirectFilesOnly => {},
            RescanMode::Recursive => {
                return false;
            },
        }
        i = i + 1;
    }
    true
}

/// How many inconsistent directories a merged tree of `unique` directories
/// may hold: one in a hundred, but at least fifty.
pub open spec fn inconsistency_allowance(unique: nat) -> nat {
    if unique / 100 > 50 { unique / 100 } else { 50 }
}

/// A merged tree is unsound when a path occurs twice, a top-level node lies
/// outside the scan root, more directories are inconsistent than
/// [`inconsistency_allowance`] allows, or the directories it holds and
/// the directory count differ by more than ten.
pub open spec fn merge_is_critical_spec(h: TreeMergeHealth, total_dirs: nat) -> bool {
    ||| h.duplicate_paths > 0
    ||| h.orphan_root_count > 0
    ||| h.inconsistent_node_count > inconsistency_allowance(h.unique_dir_nodes as nat)
    ||| h.unique_dir_nodes - total_dirs > 10
    ||| total_dirs - h.unique_dir_nodes > 10
}

/// Whether a merged tree must be thrown away for a full scan (see
/// [`merge_is_critical_spec`]).
pub fn merge_is_critical(health: &TreeMergeHealth, total_dirs: usize) -> (r: bool)
    ensures
        r == merge_is_critical_spec(*health, total_dirs as nat),
{
    let tenth: usize = health.unique_dir_nodes / 100;
    let allowance: usize = if tenth > 50 { tenth } else { 50 };
    let diff: usize = if health.unique_dir_nodes >= total_dirs {
        health.unique_dir_nodes - total_dirs
    } else {
        total_dirs - health.unique_dir_nodes
    };
    health.duplicate_paths > 0 || health.orphan_root_count > 0 || health.inconsistent_node_count > allowance
        || diff > 10
}

// ---------------------------------------------------------------------------
// Large files after a rescan
// ---------------------------------------------------------------------------

/// The file lies directly in the directory keyed `dir_key`.
pub open spec fn in_dir_of(file: Seq<char>, dir_key: Seq<char>) -> bool {
    match parent_path_spec(file) {
        Some(p) => path_key(p) == dir_key,
        None => false,
    }
}

/// A rescanned scope covers the file: a recursive rescan everything at or
/// below its key, a refresh of own files only what lies directly in it.
pub open spec fn scope_covers(file: Seq<char>, scope: (String, RescanMode)) -> bool {
    match scope.1 {
        RescanMode::Recursive => key_prefix_holds(path_key(file), scope.0@),
        RescanMode::DirectFilesOnly => in_dir_of(file, scope.0@),
    }
}

/// A cached large file stays: it is not below a deleted directory, no
/// rescan covers it, and, when the root's own files changed, it does not
/// lie directly in the root.
pub open spec fn keeps_cached_large_file(
    file: Seq<char>,
    deleted_keys: Seq<String>,
    scopes: Seq<(String, RescanMode)>,
    root_key: Seq<char>,
    root_files_changed: bool,
) -> bool {
    &&& forall|i: int| 0 <= i < deleted_keys.len() ==> !key_prefix_holds(path_key(file), #[trigger] deleted_keys[i]@)
    &&& forall|i: int| 0 <= i < scopes.len() ==> !scope_covers(file, #[trigger] scopes[i])
    &&& (root_files_changed ==> !in_dir_of(file, root_key))
}

fn lies_in_dir(path: &str, dir_key: &str) -> (r: bool)
    ensures
        r == in_dir_of(path@, dir_key@),
{
    match parent_path(path) {
        Some(p) => {
            let k = normalized_path_key_str(p.as_str());
            str_eq(k.as_str(), dir_key)
        },
        None => false,
    }
}

/// Whether a cached large file stays (see [`keeps_cached_large_file`]).
pub fn keep_cached_large_file(
    path: &str,
    deleted_keys: &Vec<String>,
    scopes: &Vec<(String, RescanMode)>,
    root_key: &str,
    root_files_changed: bool,
) -> (r: bool)
    ensures
        r == keeps_cached_large_file(path@, deleted_keys@, scopes@, root_key@, root_files_changed),
{
    let key = normalized_path_key_str(path);
    let mut i: usize = 0;
    while i < deleted_keys.len()
        invariant
            i <= deleted_keys.len(),
            key@ == path_key(path@),
            forall|j: int| 0 <= j < i ==> !key_prefix_holds(path_key(path@), #[trigger] deleted_keys@[j]@),
        decreases deleted_keys.len() - i,
    {
        if normalized_path_starts_with(key.as_str(), deleted_keys[i].as_str()) {
            return false;
        }
        i = i + 1;
    }
    let mut j: usize = 0;
    while j < scopes.len()
        invariant
            j <= scopes.len(),
            key@ == path_key(path@),
            forall|q: int| 0 <= q < j ==> !scope_covers(path@, #[trigger] scopes@[q]),
        decreases scopes.len() - j,
    {
        let covered = match scopes[j].1 {
            RescanMode::Recursive => normalized_path_starts_with(key.as_str(), scopes[j].0.as_str()),
            RescanMode::DirectFilesOnly => lies_in_dir(path, scopes[j].0.as_str()),
        };
        if covered {
            return false;
        }
        j = j + 1;
    }
    if root_files_changed && lies_in_dir(path, root_key) {
        return false;
    }
    true
}

/// The large files after a rescan, before ordering: the cached ones that
/// stay, then those the rescans found, then (when the root's own files
/// changed) those directly in the root.
pub open spec fn large_file_pool(
    cached: Seq<FileInfo>,
    deleted_keys: Seq<String>,
    scopes: Seq<(String, RescanMode)>,
    root_key: Seq<char>,
    root_files_changed: bool,
    rescanned: Seq<FileInfo>,
    root_large: Seq<FileInfo>,
) -> Seq<FileInfo> {
    cached.filter(|f: FileInfo| keeps_cached_large_file(f.path@, deleted_keys, scopes, root_key, root_files_changed))
        + rescanned + (if root_files_changed { root_large } else { Seq::empty() })
}

/// The keys a list of files is ordered by: size, largest first.
pub open spec fn file_size_keys(files: Seq<FileInfo>) -> Seq<(u64, u64)> {
    Seq::new(files.len(), |k: int| (0u64, files[k].size))
}

/// The large files after a rescan (see [`large_file_pool`]), largest
/// first; files of equal size keep their order.
pub fn rebuild_large_files(
    cached: &Vec<FileInfo>,
    deleted_keys: &Vec<String>,
    scopes: &Vec<(String, RescanMode)>,
    root_key: &str,
    root_files_changed: bool,
    rescanned: &Vec<FileInfo>,
    root_large: &Vec<FileInfo>,
) -> (r: Vec<FileInfo>)
    ensures
        ({
            let pool = large_file_pool(
                cached@,
                deleted_keys@,
                scopes@,
                root_key@,
                root_files_changed,
                rescanned@,
                root_large@,
            );
            exists|p: Seq<usize>|
                is_stable_key_order(file_size_keys(pool), p) && r@ == Seq::new(p.len(), |k: int| pool[p[k] as int])
        }),
{
    let ghost pred = |f: FileInfo| keeps_cached_large_file(f.path@, deleted_keys@, scopes@, root_key@, root_files_changed);
    let mut pool: Vec<FileInfo> = Vec::new();
    let mut i: usize = 0;
    while i < cached.len()
        invariant
            i <= cached.len(),
            pred == (|f: FileInfo| keeps_cached_large_file(f.path@, deleted_keys@, scopes@, root_key@, root_files_changed)),
            pool@ == cached@.take(i as int).filter(pred),
        decreases cached.len() - i,
    {
        proof {
            reveal_with_fuel(Seq::filter, 1);
            assert(cached@.take(i as int + 1).drop_last() =~= cached@.take(i as int));
        }
        if keep_cached_large_file(cached[i].path.as_str(), deleted_keys, scopes, root_key, root_files_changed) {
            pool.push(copy_file_info(&cached[i]));
        }
        i = i + 1;
    }
    assert(cached@.take(cached.len() as int) =~= cached@);
    let ghost kept = pool@;
    let mut j: usize = 0;
    while j < rescanned.len()
        invariant
            j <= rescanned.len(),
            pool@ == kept + rescanned@.take(j as int),
        decreases rescanned.len() - j,
    {
        pool.push(copy_file_info(&rescanned[j]));
        j = j + 1;
        assert(pool@ =~= kept + rescanned@.take(j as int));
    }
    assert(rescanned@.take(rescanned.len() as int) =~= rescanned@);
    let ghost mid = pool@;
    if root_files_changed {
        let mut q: usize = 0;
        while q < root_large.len()
            invariant
                q <= root_large.len(),
                pool@ == mid + root_large@.take(q as int),
            decreases root_large.len() - q,
        {
            pool.push(copy_file_info(&root_large[q]));
            q = q + 1;
            assert(pool@ =~= mid + root_large@.take(q as int));
        }
        assert(root_large@.take(root_large.len() as int) =~= root_large@);
    } else {
        assert(pool@ =~= mid + Seq::<FileInfo>::empty());
    }
    let ghost all = pool@;
    assert(all =~= large_file_pool(cached@, deleted_keys@, scopes@, root_key@, root_files_changed, rescanned@, root_large@));
    let mut keys: Vec<(u64, u64)> = Vec::new();
    let mut k: usize = 0;
    while k < pool.len()
        invariant
            k <= pool@.len(),
            keys@.len() == k,
            forall|m: int| 0 <= m < k ==> #[trigger] keys@[m] == (0u64, pool@[m].size),
        decreases pool@.len() - k,
    {
        keys.push((0, pool[k].size));
        k = k + 1;
    }
    assert(keys@ =~= file_size_keys(pool@));
    let order = stable_key_order(&keys);
    let mut out: Vec<FileInfo> = Vec::new();
    let mut m: usize = 0;
    while m < order.len()
        invariant
            m <= order@.len(),
            is_stable_key_order(file_size_keys(pool@), order@),
            out@.len() == m,
            forall|x: int| 0 <= x < m ==> #[trigger] out@[x] == pool@[order@[x] as int],
        decreases order@.len() - m,
    {
        out.push(copy_file_info(&pool[order[m]]));
        m = m + 1;
    }
    assert(out@ =~= Seq::new(order@.len(), |x: int| pool@[order@[x] as int]));
    out
}

// ---------------------------------------------------------------------------
// The incremental scan as a sequence of decisions
// ---------------------------------------------------------------------------

/// Where an incremental scan stands between its outside steps.
#[derive(Debug, Clone, Copy, PartialEq, Eq, Structural)]
pub enum IncrementalState {
    /// The changes since the cached scan are being detected.
    AwaitingDetection,
    /// The cancellation signal is to be read before rescanning.
    AwaitingCancelCheck,
    /// The changed directories are being rescanned.
    AwaitingRescan,
    /// The rescans are being merged into the cached tree.
    AwaitingMerge,
    /// The scan has decided how it ends.
    Finished,
}

/// What an outside step of the scan reports.
pub enum IncrementalEvent {
    /// Detection found `changes` changed directories (and maybe changed
    /// files directly in the root) against `cached_dirs` cached directories.
    Detected { changes: usize, root_files_changed: bool, cached_dirs: usize },
    /// The cancellation signal was read.
    CancelChecked { cancelled: bool },
    /// The rescans are done: `deleted` directories are gone and each
    /// rescanned one was refreshed as `modes` says.
    Rescanned { deleted: usize, modes: Vec<RescanMode> },
    /// The merged tree was inspected; the directory count is `total_dirs`.
    Merged { health: TreeMergeHealth, total_dirs: usize },
}

/// What the scan does next.
#[derive(Debug, Clone, Copy, PartialEq, Eq, Structural)]
pub enum IncrementalAction {
    /// Nothing changed: hand back the cached scan.
    UseCache,
    /// Too much changed, or the merge went wrong: scan everything again.
    FullScan,
    /// Read the cancellation signal.
    CheckCancellation,
    /// Stop with the cancellation error.
    Cancel,
    /// Rescan the changed directories.
    RescanChanges,
    /// Refresh the rescanned directories in place.
    RefreshInPlace,
    /// Merge the rescans and deletions into the cached tree.
    MergeTrees,
    /// Keep the merged tree as the new scan.
    Complete,
    /// The event does not belong to this state: nothing to do.
    Nothing,
}

/// More than three in ten of the cached directories changed (an empty
/// cache counts as one directory).
pub open spec fn too_many_changes(total: int, cached_dirs: int) -> bool {
    10 * total > 3 * (if cached_dirs > 1 { cached_dirs } else { 1 })
}

/// The next state and action of the scan for an event:
/// - after detection, no change at all keeps the cache, more than three
///   in ten changed directories ask for a full scan, and otherwise the
///   cancellation signal is read;
/// - a cancelled scan stops, else the changes are rescanned;
/// - after the rescans, the in-place refresh is used when nothing was
///   deleted and every rescan covered only a directory's own files, else
///   the full merge;
/// - after the merge, an unsound tree asks for a full scan, else the scan
///   completes;
/// - any other event leaves the state as it is.
pub open spec fn incremental_step_spec(
    state: IncrementalState,
    event: IncrementalEvent,
) -> (IncrementalState, IncrementalAction) {
    match (state, event) {
        (IncrementalState::AwaitingDetection, IncrementalEvent::Detected { changes, root_files_changed, cached_dirs }) => {
            let total = changes + (if root_files_changed { 1int } else { 0int });
            if total == 0 {
                (IncrementalState::Finished, IncrementalAction::UseCache)
            } else if too_many_changes(total, cached_dirs as int) {
                (IncrementalState::Finished, IncrementalAction::FullScan)
            } else {
                (IncrementalState::AwaitingCancelCheck, IncrementalAction::CheckCancellation)
            }
        },
        (IncrementalState::AwaitingCancelCheck, IncrementalEvent::CancelChecked { cancelled }) => if cancelled {
            (IncrementalState::Finished, IncrementalAction::Cancel)
        } else {
            (IncrementalState::AwaitingRescan, IncrementalAction::RescanChanges)
        },
        (IncrementalState::AwaitingRescan, IncrementalEvent::Rescanned { deleted, modes }) => if direct_refresh_applies_spec(
            deleted as nat,
            modes@,
        ) {
            (IncrementalState::AwaitingMerge, IncrementalAction::RefreshInPlace)
        } else {
            (IncrementalState::AwaitingMerge, IncrementalAction::MergeTrees)
        },
        (IncrementalState::AwaitingMerge, IncrementalEvent::Merged { health, total_dirs }) => if merge_is_critical_spec(
            health,
            total_dirs as nat,
        ) {
            (IncrementalState::Finished, IncrementalAction::FullScan)
        } else {
            (IncrementalState::Finished, IncrementalAction::Complete)
        },
        _ => (state, IncrementalAction::Nothing),
    }
}

/// One decision of the incremental scan (see [`incremental_step_spec`]).
pub fn incremental_step(state: IncrementalState, event: IncrementalEvent) -> (r: (IncrementalState, IncrementalAction))
    ensures
        r == incremental_step_spec(state, event),
{
    match state {
        IncrementalState::AwaitingDetection => match event {
            IncrementalEvent::Detected { changes, root_files_changed, cached_dirs } => {
                let total: u128 = if root_files_changed { changes as u128 + 1 } else { changes as u128 };
                let base: u128 = if cached_dirs > 1 { cached_dirs as u128 } else { 1 };
                if total == 0 {
                    (IncrementalState::Finished, IncrementalAction::UseCache)
                } else if 10 * total > 3 * base {
                    (IncrementalState::Finished, IncrementalAction::FullScan)
                } else {
                    (IncrementalState::AwaitingCancelCheck, IncrementalAction::CheckCancellation)
                }
            },
            _ => (state, IncrementalAction::Nothing),
        },
        IncrementalState::AwaitingCancelCheck => match event {
            IncrementalEvent::CancelChecked { cancelled } => {
                if cancelled {
                    (IncrementalState::Finished, IncrementalAction::Cancel)
                } else {
                    (IncrementalState::AwaitingRescan, IncrementalAction::RescanChanges)
                }
            },
            _ => (state, IncrementalAction::Nothing),
        },
        IncrementalState::AwaitingRescan => match event {
            IncrementalEvent::Rescanned { deleted, modes } => {
                if direct_refresh_applies(deleted, &modes) {
                    (IncrementalState::AwaitingMerge, IncrementalAction::RefreshInPlace)
                } else {
                    (IncrementalState::AwaitingMerge, IncrementalAction::MergeTrees)
                }
            },
            _ => (state, IncrementalAction::Nothing),
        },
        IncrementalState::AwaitingMerge => match event {
            IncrementalEvent::Merged { health, total_dirs } => {
                if merge_is_critical(&health, total_dirs) {
                    (IncrementalState::Finished, IncrementalAction::FullScan)
                } else {
                    (IncrementalState::Finished, IncrementalAction::Complete)
                }
            },
            _ => (state, IncrementalAction::Nothing),
        },
        IncrementalState::Finished => (state, IncrementalAction::Nothing),
    }
}

} // verus!
