//! The scanner's shared state: a cancellation flag for the running scan,
//! and the indexed result of the last scan of each root.
use vstd::prelude::*;
use crate::file_info::ScanResult;
use crate::scan_index::IndexedScanResult;
use crate::session::CancellationToken;
use crate::text::{owned, str_eq};

verus! {

/// The scanner's shared state.
pub struct DiskScanner {
    cancelled: CancellationToken,
    sessions: Vec<(String, IndexedScanResult)>,
}

/// The result kept for `root` among the sessions from position `i` on.
pub open spec fn session_in(sessions: Seq<(String, IndexedScanResult)>, root: Seq<char>, i: int) -> Option<
    IndexedScanResult,
>
    decreases sessions.len() - i,
{
    if i < 0 || i >= sessions.len() {
        None
    } else if sessions[i].0@ == root {
        Some(sessions[i].1)
    } else {
        session_in(sessions, root, i + 1)
    }
}

proof fn lemma_session_update(
    s: Seq<(String, IndexedScanResult)>,
    t: Seq<(String, IndexedScanResult)>,
    at: int,
    key: Seq<char>,
    k: int,
)
    requires
        0 <= at < s.len(),
        t.len() == s.len(),
        0 <= k <= s.len(),
        s[at].0@ == key,
        t[at].0@ == key,
        forall|j: int| 0 <= j < s.len() && j != at ==> t[j] == s[j],
        forall|j: int| k <= j < at ==> s[j].0@ != key,
    ensures
        k <= at ==> session_in(t, key, k) == Some(t[at].1),
        forall|r: Seq<char>| r != key ==> session_in(t, r, k) == session_in(s, r, k),
    decreases s.len() - k,
{
    if k < s.len() {
        lemma_session_update(s, t, at, key, k + 1);
        assert forall|r: Seq<char>| r != key implies session_in(t, r, k) == session_in(s, r, k) by {
            assert(session_in(t, r, k + 1) == session_in(s, r, k + 1));
            if k != at {
                assert(t[k] == s[k]);
            }
        }
    }
}

proof fn lemma_session_push(s: Seq<(String, IndexedScanResult)>, e: (String, IndexedScanResult), key: Seq<char>, k: int)
    requires
        0 <= k <= s.len(),
        e.0@ == key,
        forall|j: int| k <= j < s.len() ==> s[j].0@ != key,
    ensures
        session_in(s.push(e), key, k) == Some(e.1),
        forall|r: Seq<char>| r != key ==> session_in(s.push(e), r, k) == session_in(s, r, k),
    decreases s.len() - k,
{
    if k < s.len() {
        lemma_session_push(s, e, key, k + 1);
        assert(s.push(e)[k] == s[k]);
        assert forall|r: Seq<char>| r != key implies session_in(s.push(e), r, k) == session_in(s, r, k) by {
            assert(s.push(e)[k] == s[k]);
            assert(session_in(s.push(e), r, k + 1) == session_in(s, r, k + 1));
        }
    } else {
        assert(s.push(e)[k] == e);
        assert forall|r: Seq<char>| r != key implies session_in(s.push(e), r, k) == session_in(s, r, k) by {
            assert(s.push(e)[k] == e);
            assert(session_in(s.push(e), r, k + 1) is None);
        }
    }
}

impl DiskScanner {
    /// The indexed result kept for a root (the root's text, compared
    /// exactly).
    pub closed spec fn session_of(self, root: Seq<char>) -> Option<IndexedScanResult> {
        session_in(self.sessions@, root, 0)
    }

    /// No scan kept, not cancelled.
    pub fn new() -> (r: DiskScanner)
        ensures
            forall|root: Seq<char>| r.session_of(root) is None,
    {
        DiskScanner { cancelled: CancellationToken::new(), sessions: Vec::new() }
    }

    /// Asks the running scan to stop.
    pub fn cancel(&self) {
        self.cancelled.cancel();
    }

    /// Clears the request to stop, before a new scan.
    pub fn reset_cancel(&self) {
        self.cancelled.reset();
    }

    /// The flag the running scan's cancellation token holds.
    pub closed spec fn cancel_flag(self) -> std::sync::Arc<std::sync::atomic::AtomicBool> {
        self.cancelled.flag_of()
    }

    /// A copy of the running scan's cancellation token.
    pub fn token(&self) -> (r: CancellationToken)
        ensures
            r.flag_of() == self.cancel_flag(),
    {
        self.cancelled.child()
    }

    /// Keeps an indexed result for its root, replacing the one kept before;
    /// the results of other roots stay.
    pub fn store_indexed(&mut self, indexed: IndexedScanResult)
        ensures
            final(self).session_of(indexed.root_view()) == Some(indexed),
            forall|root: Seq<char>| root != indexed.root_view() ==> #[trigger] final(self).session_of(root)
                == old(self).session_of(root),
    {
        let ghost s0 = self.sessions@;
        let ghost key = indexed.root_view();
        let root = owned(indexed.root_path());
        let mut i: usize = 0;
        let mut found = false;
        while i < self.sessions.len() && !found
            invariant
                i <= self.sessions@.len(),
                self.sessions@ == s0,
                root@ == key,
                forall|j: int| 0 <= j < i ==> s0[j].0@ != key,
                found ==> i < s0.len() && s0[i as int].0@ == key,
            decreases self.sessions@.len() - i + if found { 0int } else { 1int },
        {
            if str_eq(self.sessions[i].0.as_str(), root.as_str()) {
                found = true;
            } else {
                i = i + 1;
            }
        }
        if found {
            assert(s0[i as int].0@ == key);
            self.sessions.set(i, (root, indexed));
            proof {
                lemma_session_update(s0, self.sessions@, i as int, key, 0);
            }
        } else {
            let ghost e = (root, indexed);
            self.sessions.push((root, indexed));
            proof {
                lemma_session_push(s0, e, key, 0);
            }
        }
    }

    /// Indexes a finished scan and keeps it for its root (see
    /// [`DiskScanner::store_indexed`]).
    pub fn store_indexed_scan_result(&mut self, result: &ScanResult)
        ensures
            final(self).session_of(result.root_path@) matches Some(ix) && ix.indexes(*result),
            forall|root: Seq<char>| root != result.root_path@ ==> #[trigger] final(self).session_of(root)
                == old(self).session_of(root),
    {
        let indexed = IndexedScanResult::from_scan_result(result);
        self.store_indexed(indexed);
    }

    /// The indexed result kept for a root, if any.
    pub fn indexed_for(&self, root_path: &str) -> (r: Option<&IndexedScanResult>)
        ensures
            r matches Some(ix) ==> self.session_of(root_path@) == Some(*ix),
            r is None ==> self.session_of(root_path@) is None,
    {
        let mut i: usize = 0;
        while i < self.sessions.len()
            invariant
                i <= self.sessions@.len(),
                session_in(self.sessions@, root_path@, 0) == session_in(self.sessions@, root_path@, i as int),
            decreases self.sessions@.len() - i,
        {
            if str_eq(self.sessions[i].0.as_str(), root_path) {
                return Some(&self.sessions[i].1);
            }
            i = i + 1;
        }
        None
    }

    /// `f` applied to the indexed result kept for a root; none when no scan
    /// of the root is kept.
    pub fn with_indexed<F, T>(&self, root_path: &str, f: F) -> (r: Option<T>)
        where
            F: FnOnce(&IndexedScanResult) -> T,
        requires
            forall|ix: &IndexedScanResult| f.requires((ix,)),
        ensures
            self.session_of(root_path@) is None ==> r is None,
            self.session_of(root_path@) matches Some(ix) ==> (r matches Some(v) && f.ensures((&ix,), v)),
    {
        match self.indexed_for(root_path) {
            Some(ix) => Some(f(ix)),
            None => None,
        }
    }

    /// The snapshot of a directory of a kept scan: none when no scan of the
    /// root is kept, else what the indexed result gives for the path (see
    /// [`IndexedScanResult::snapshot_for_path`]).
    pub fn get_directory_snapshot(&self, root_path: &str, path: &str) -> (r: Option<ScanResult>)
        ensures
            self.session_of(root_path@) is None ==> r is None,
            self.session_of(root_path@) matches Some(ix) ==> ix.snapshot_matches(path@, r),
    {
        match self.indexed_for(root_path) {
            Some(ix) => ix.snapshot_for_path(path),
            None => None,
        }
    }
}

/// What was stored last for a root is what a lookup of the root finds,
/// whatever was stored before and for other roots.
pub proof fn law_read_after_store(before: DiskScanner, after: DiskScanner, indexed: IndexedScanResult, root: Seq<char>)
    requires
        after.session_of(indexed.root_view()) == Some(indexed),
        forall|r: Seq<char>| r != indexed.root_view() ==> #[trigger] after.session_of(r) == before.session_of(r),
    ensures
        after.session_of(root) == if root == indexed.root_view() { Some(indexed) } else { before.session_of(root) },
{
}

} // verus!
