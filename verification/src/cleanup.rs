//! Removing junk: how a removal is asked for and reported, and the running
//! account of a cleaning run over many paths.
use vstd::prelude::*;
use crate::text::owned;

verus! {

/// A user's report that a rule matched something it should not.
pub struct JunkFeedback {
    pub path: String,
    pub rule_id: String,
    pub rule_name: String,
    pub user_note: String,
    pub reported_at_iso: String,
}

/// How a path is removed.
#[derive(Debug, Clone, Copy, PartialEq, Eq, Structural)]
pub enum DeleteMode {
    Recycle,
    Permanent,
}

/// A path that could not be removed, and why.
pub struct DeleteError {
    pub path: String,
    pub error: String,
}

/// What removing a path did.
pub struct DeleteResult {
    pub success: bool,
    pub source_path: String,
    pub mode: DeleteMode,
    pub deleted_size: u64,
    pub deleted_files: usize,
    pub errors: Vec<DeleteError>,
    pub duration_ms: u64,
}

/// Paths are moved to the recycle bin or removed for good.
pub fn delete_mode_for(to_recycle_bin: bool) -> (r: DeleteMode)
    ensures
        r == if to_recycle_bin { DeleteMode::Recycle } else { DeleteMode::Permanent },
{
    if to_recycle_bin {
        DeleteMode::Recycle
    } else {
        DeleteMode::Permanent
    }
}

/// What is said of a path that does not exist.
pub const MISSING_PATH_MESSAGE: &'static str = "路径不存在";

/// The report for a path that does not exist: nothing removed, one error.
pub fn missing_path_result(path: &str, mode: DeleteMode, duration_ms: u64) -> (r: DeleteResult)
    ensures
        !r.success,
        r.source_path@ == path@,
        r.mode == mode,
        r.deleted_size == 0,
        r.deleted_files == 0,
        r.errors@.len() == 1,
        r.errors@[0].path@ == path@,
        r.errors@[0].error@ == MISSING_PATH_MESSAGE@,
        r.duration_ms == duration_ms,
{
    let mut errors: Vec<DeleteError> = Vec::new();
    errors.push(DeleteError { path: owned(path), error: owned(MISSING_PATH_MESSAGE) });
    DeleteResult {
        success: false,
        source_path: owned(path),
        mode,
        deleted_size: 0,
        deleted_files: 0,
        errors,
        duration_ms,
    }
}

/// The report of a removal: successful when nothing failed.
pub fn finish_delete(
    source_path: String,
    mode: DeleteMode,
    deleted_size: u64,
    deleted_files: usize,
    errors: Vec<DeleteError>,
    duration_ms: u64,
) -> (r: DeleteResult)
    ensures
        r.success == (errors@.len() == 0),
        r.source_path == source_path,
        r.mode == mode,
        r.deleted_size == deleted_size,
        r.deleted_files == deleted_files,
        r.errors@ == errors@,
        r.duration_ms == duration_ms,
{
    let success = errors.len() == 0;
    DeleteResult { success, source_path, mode, deleted_size, deleted_files, errors, duration_ms }
}

/// A path moved to the recycle bin counts as at least one file.
pub fn recycled_file_count(count: usize) -> (r: usize)
    ensures
        r == if count >= 1 { count } else { 1 },
{
    if count >= 1 {
        count
    } else {
        1
    }
}

/// A path a cleaning run could not remove, and why.
pub struct JunkCleanError {
    pub path: String,
    pub error: String,
}

/// What a cleaning run did.
pub struct JunkCleanResult {
    pub success: bool,
    pub cleaned_size: u64,
    pub cleaned_count: usize,
    pub failed_count: usize,
    pub errors: Vec<JunkCleanError>,
    pub duration_ms: u64,
}

/// The running account of a cleaning run.
pub struct CleanTally {
    pub cleaned_size: u64,
    pub cleaned_count: usize,
    pub failed_count: usize,
    pub completed_items: usize,
    pub errors: Vec<JunkCleanError>,
}

pub open spec fn clean_errors_view(e: Seq<JunkCleanError>) -> Seq<(Seq<char>, Seq<char>)> {
    Seq::new(e.len(), |i: int| (e[i].path@, e[i].error@))
}

pub open spec fn delete_errors_view(e: Seq<DeleteError>) -> Seq<(Seq<char>, Seq<char>)> {
    Seq::new(e.len(), |i: int| (e[i].path@, e[i].error@))
}

impl CleanTally {
    /// Nothing done yet.
    pub fn new() -> (r: CleanTally)
        ensures
            r.cleaned_size == 0,
            r.cleaned_count == 0,
            r.failed_count == 0,
            r.completed_items == 0,
            r.errors@.len() == 0,
    {
        CleanTally { cleaned_size: 0, cleaned_count: 0, failed_count: 0, completed_items: 0, errors: Vec::new() }
    }

    /// A path that no longer exists: it counts as done, nothing else.
    pub fn record_missing(&mut self)
        requires
            old(self).completed_items < usize::MAX,
        ensures
            final(self).completed_items == old(self).completed_items + 1,
            final(self).cleaned_size == old(self).cleaned_size,
            final(self).cleaned_count == old(self).cleaned_count,
            final(self).failed_count == old(self).failed_count,
            clean_errors_view(final(self).errors@) == clean_errors_view(old(self).errors@),
    {
        self.completed_items = self.completed_items + 1;
    }

    /// A path removed (perhaps partly): its size and files count as
    /// cleaned; when it did not succeed, its errors are kept and it counts
    /// as failed.
    pub fn record_result(&mut self, res: DeleteResult)
        requires
            old(self).completed_items < usize::MAX,
            old(self).failed_count < usize::MAX,
            old(self).cleaned_size + res.deleted_size <= u64::MAX,
            old(self).cleaned_count + res.deleted_files <= usize::MAX,
        ensures
            final(self).completed_items == old(self).completed_items + 1,
            final(self).cleaned_size == old(self).cleaned_size + res.deleted_size,
            final(self).cleaned_count == old(self).cleaned_count + res.deleted_files,
            final(self).failed_count == old(self).failed_count + if res.success { 0int } else { 1int },
            clean_errors_view(final(self).errors@) == clean_errors_view(old(self).errors@) + if res.success {
                Seq::empty()
            } else {
                delete_errors_view(res.errors@)
            },
    {
        let ghost start = clean_errors_view(self.errors@);
        let ghost added = delete_errors_view(res.errors@);
        self.cleaned_size = self.cleaned_size + res.deleted_size;
        self.cleaned_count = self.cleaned_count + res.deleted_files;
        if !res.success {
            let mut rest = res.errors;
            let mut k: usize = 0;
            let n = rest.len();
            while rest.len() > 0
                invariant
                    k + rest@.len() == n,
                    n == added.len(),
                    forall|q: int| 0 <= q < rest@.len() ==> ((#[trigger] rest@[q]).path@, rest@[q].error@) == added[k + q],
                    clean_errors_view(self.errors@) == start + added.take(k as int),
                    self.failed_count == old(self).failed_count,
                    self.completed_items == old(self).completed_items,
                    self.cleaned_size == old(self).cleaned_size + res.deleted_size,
                    self.cleaned_count == old(self).cleaned_count + res.deleted_files,
                decreases rest@.len(),
            {
                let ghost r0 = rest@;
                let e = rest.remove(0);
                assert((e.path@, e.error@) == added[k as int]);
                assert(forall|q: int| 0 <= q < rest@.len() ==> rest@[q] == r0[q + 1]);
                let ghost before = self.errors@;
                let ghost ev = (e.path@, e.error@);
                self.errors.push(JunkCleanError { path: e.path, error: e.error });
                assert(clean_errors_view(self.errors@) =~= clean_errors_view(before).push(ev));
                k = k + 1;
                assert(clean_errors_view(self.errors@) =~= start + added.take(k as int));
            }
            assert(added.take(n as int) =~= added);
            self.failed_count = self.failed_count + 1;
        } else {
            assert(clean_errors_view(self.errors@) =~= start + Seq::empty());
        }
        self.completed_items = self.completed_items + 1;
    }

    /// A path whose removal could not run: the reason is kept and it counts
    /// as failed.
    pub fn record_failure(&mut self, path: String, error: String)
        requires
            old(self).completed_items < usize::MAX,
            old(self).failed_count < usize::MAX,
        ensures
            final(self).completed_items == old(self).completed_items + 1,
            final(self).failed_count == old(self).failed_count + 1,
            final(self).cleaned_size == old(self).cleaned_size,
            final(self).cleaned_count == old(self).cleaned_count,
            clean_errors_view(final(self).errors@) == clean_errors_view(old(self).errors@).push((path@, error@)),
    {
        let ghost start = clean_errors_view(self.errors@);
        let ghost pv = (path@, error@);
        self.errors.push(JunkCleanError { path, error });
        assert(clean_errors_view(self.errors@) =~= start.push(pv));
        self.failed_count = self.failed_count + 1;
        self.completed_items = self.completed_items + 1;
    }

    /// The run's report: successful when no error was kept.
    pub fn finish(self, duration_ms: u64) -> (r: JunkCleanResult)
        ensures
            r.success == (self.errors@.len() == 0),
            r.cleaned_size == self.cleaned_size,
            r.cleaned_count == self.cleaned_count,
            r.failed_count == self.failed_count,
            r.errors@ == self.errors@,
            r.duration_ms == duration_ms,
    {
        let success = self.errors.len() == 0;
        JunkCleanResult {
            success,
            cleaned_size: self.cleaned_size,
            cleaned_count: self.cleaned_count,
            failed_count: self.failed_count,
            errors: self.errors,
            duration_ms,
        }
    }
}

} // verus!
