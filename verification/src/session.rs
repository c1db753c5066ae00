//! Cancellation of scans: a flag shared by every copy of a token, a guard
//! that cancels its token when dropped unless disarmed, and the key a scan
//! session of a volume is registered under.
use vstd::prelude::*;
use std::sync::Arc;
use std::sync::atomic::AtomicBool;
use crate::incremental::CancellationLike;
use crate::path_utils::{utf8_len, utf8_len_exceeds_three};
use crate::safety::{trim_whitespace, unicode_trim};
use crate::text::{ascii_lower, chars_of, replace_char, replace_char_str, str_eq, string_from_chars, to_ascii_lowercase};

verus! {

/// `AtomicBool::store(true, Relaxed)`: claimed only that it returns without
/// unwinding and opens no invariant; nothing is stated of the flag, which
/// other threads share.
#[verifier::external_body]
fn raise_flag(flag: &AtomicBool)
    opens_invariants none
    no_unwind
{
    flag.store(true, std::sync::atomic::Ordering::Relaxed);
}

/// `AtomicBool::store(false, Relaxed)`: claimed only that it returns;
/// nothing is stated of the flag, which other threads share.
#[verifier::external_body]
fn lower_flag(flag: &AtomicBool) {
    flag.store(false, std::sync::atomic::Ordering::Relaxed);
}

/// A cancellation signal; every copy shares one flag. A token issued by a
/// session table carries the table's serial number of that session, which
/// every copy keeps; a token made on its own carries serial 0.
pub struct CancellationToken {
    flag: Arc<AtomicBool>,
    serial: u64,
}

impl CancellationToken {
    /// The flag this token shares with its copies.
    pub closed spec fn flag_of(self) -> Arc<AtomicBool> {
        self.flag
    }

    /// The session serial this token and its copies carry.
    pub closed spec fn serial_of(self) -> u64 {
        self.serial
    }

    /// A token not yet cancelled, of no session (serial 0).
    pub fn new() -> (r: CancellationToken)
        ensures
            r.serial_of() == 0,
    {
        CancellationToken { flag: Arc::new(AtomicBool::new(false)), serial: 0 }
    }

    /// A token not yet cancelled, for the session numbered `serial`.
    pub fn for_session(serial: u64) -> (r: CancellationToken)
        ensures
            r.serial_of() == serial,
    {
        CancellationToken { flag: Arc::new(AtomicBool::new(false)), serial }
    }

    /// The session serial of the token.
    pub fn serial(&self) -> (r: u64)
        ensures
            r == self.serial_of(),
    {
        self.serial
    }

    /// Cancels every copy of the token; calling it again changes nothing.
    pub fn cancel(&self)
        opens_invariants none
        no_unwind
    {
        raise_flag(&self.flag);
    }

    /// Clears the shared flag, so that a new run can use the token.
    pub fn reset(&self) {
        lower_flag(&self.flag);
    }

    /// Whether some copy of the token was cancelled. Another thread may
    /// cancel at any moment, so nothing is promised of the answer.
    pub fn is_cancelled(&self) -> (r: bool) {
        self.flag.load(std::sync::atomic::Ordering::Relaxed)
    }

    /// A copy of the token, sharing its flag.
    pub fn child(&self) -> (r: CancellationToken)
        ensures
            r.flag_of() == self.flag_of(),
            r.serial_of() == self.serial_of(),
    {
        CancellationToken { flag: Arc::clone(&self.flag), serial: self.serial }
    }

    /// Whether `other` belongs to the same session as this token.
    pub fn same_session(&self, other: &CancellationToken) -> (r: bool)
        ensures
            r == (self.serial_of() == other.serial_of()),
    {
        self.serial == other.serial
    }

    /// The shared flag itself.
    pub fn as_atomic(&self) -> (r: Arc<AtomicBool>)
        ensures
            r == self.flag_of(),
    {
        Arc::clone(&self.flag)
    }
}

impl Clone for CancellationToken {
    fn clone(&self) -> (r: CancellationToken) {
        self.child()
    }
}

impl CancellationLike for CancellationToken {
    fn is_cancelled(&self) -> (r: bool) {
        self.flag.load(std::sync::atomic::Ordering::Relaxed)
    }
}

/// Holds a token and cancels it when dropped, unless disarmed first.
pub struct CancellationGuard {
    token: CancellationToken,
    armed: bool,
}

impl CancellationGuard {
    pub closed spec fn is_armed(self) -> bool {
        self.armed
    }

    /// A guard over the token, armed.
    pub fn new(token: CancellationToken) -> (r: CancellationGuard)
        ensures
            r.is_armed(),
            r.token_of() == token,
    {
        CancellationGuard { token, armed: true }
    }

    /// The guarded token.
    pub closed spec fn token_of(self) -> CancellationToken {
        self.token
    }

    /// A copy of the guarded token.
    pub fn token(&self) -> (r: CancellationToken)
        ensures
            r.flag_of() == self.token_of().flag_of(),
            r.serial_of() == self.token_of().serial_of(),
    {
        self.token.child()
    }

    /// Keeps the guard from cancelling when dropped.
    pub fn disarm(&mut self)
        ensures
            !final(self).is_armed(),
    {
        self.armed = false;
    }
}

impl Drop for CancellationGuard {
    fn drop(&mut self)
        opens_invariants none
        no_unwind
    {
        if self.armed {
            self.token.cancel();
        }
    }
}

/// Trailing `\` removed while the text is longer than three bytes in UTF-8.
pub open spec fn key_trim(s: Seq<char>) -> Seq<char>
    decreases s.len(),
{
    if s.len() > 0 && s.last() == '\\' && utf8_len(s) > 3 {
        key_trim(s.drop_last())
    } else {
        s
    }
}

/// The key a volume's scan session is registered under: the path trimmed of
/// whitespace, `/` read as `\`, ASCII letters lowercased, trailing `\`
/// removed while the key is longer than three bytes (so `c:\` keeps its
/// separator).
pub open spec fn session_key(disk_path: Seq<char>) -> Seq<char> {
    key_trim(ascii_lower(replace_char(unicode_trim(disk_path), '/', '\\')))
}

/// The key a volume's scan session is registered under (see
/// [`session_key`]).
pub fn normalize_key(disk_path: &str) -> (r: String)
    ensures
        r@ == session_key(disk_path@),
{
    let trimmed = trim_whitespace(disk_path);
    let replaced = replace_char_str(trimmed.as_str(), '/', '\\');
    let lowered = to_ascii_lowercase(replaced.as_str());
    let mut v = chars_of(lowered.as_str());
    while v.len() > 0 && v[v.len() - 1] == '\\' && utf8_len_exceeds_three(v.as_slice())
        invariant
            key_trim(v@) == session_key(disk_path@),
        decreases v.len(),
    {
        let _ = v.pop();
    }
    string_from_chars(v.as_slice())
}

/// The scan sessions running, one per volume key, each with its token and
/// what the caller keeps with it (such as a way to wait for its end).
pub struct ScanSessionTable<T> {
    entries: Vec<(String, CancellationToken, T)>,
    next_serial: u64,
}

impl<T> ScanSessionTable<T> {
    /// The keys of the volumes with a session, in registration order.
    pub closed spec fn keys(&self) -> Seq<Seq<char>> {
        Seq::new(self.entries@.len(), |k: int| self.entries@[k].0@)
    }

    /// No volume is registered twice, and every session's serial was
    /// issued before the next one to issue.
    pub open spec fn wf(&self) -> bool {
        &&& forall|a: int, b: int| 0 <= a < b < self.keys().len() ==> self.keys()[a] != self.keys()[b]
        &&& self.serials().len() == self.keys().len()
        &&& forall|a: int|
            0 <= a < self.serials().len() ==> #[trigger] self.serials()[a] < self.next_serial_of()
                || self.next_serial_of() == u64::MAX
    }

    /// The cancellation flags of the sessions, in the order of
    /// [`Self::keys`].
    pub closed spec fn flags(&self) -> Seq<Arc<AtomicBool>> {
        Seq::new(self.entries@.len(), |k: int| self.entries@[k].1.flag_of())
    }

    /// The serials of the sessions, in the order of [`Self::keys`].
    pub closed spec fn serials(&self) -> Seq<u64> {
        Seq::new(self.entries@.len(), |k: int| self.entries@[k].1.serial_of())
    }

    /// The serial the next session gets.
    pub closed spec fn next_serial_of(&self) -> u64 {
        self.next_serial
    }

    /// No session.
    pub fn new() -> (r: ScanSessionTable<T>)
        ensures
            r.wf(),
            r.keys() == Seq::<Seq<char>>::empty(),
            r.next_serial_of() == 1,
    {
        let r = ScanSessionTable { entries: Vec::new(), next_serial: 1 };
        assert(r.keys() =~= Seq::<Seq<char>>::empty());
        r
    }

    /// How many sessions are registered.
    pub fn len(&self) -> (r: usize)
        ensures
            r == self.keys().len(),
    {
        self.entries.len()
    }

    fn position_of(&self, key: &str) -> (r: Option<usize>)
        ensures
            match r {
                Some(i) => i < self.keys().len() && self.keys()[i as int] == key@,
                None => !self.keys().contains(key@),
            },
    {
        let mut i: usize = 0;
        while i < self.entries.len()
            invariant
                i <= self.entries@.len(),
                forall|k: int| 0 <= k < i ==> self.keys()[k] != key@,
            decreases self.entries@.len() - i,
        {
            if str_eq(self.entries[i].0.as_str(), key) {
                return Some(i);
            }
            i = i + 1;
        }
        None
    }

    /// Registers a new session of the volume (under [`session_key`]) with
    /// `payload`, replacing the one registered before (which is not
    /// cancelled here); returns the key and the new session's token, which
    /// carries the next serial (counting stops at the largest `u64`).
    pub fn register(&mut self, disk_path: &str, payload: T) -> (r: (String, CancellationToken))
        requires
            old(self).wf(),
        ensures
            final(self).wf(),
            r.0@ == session_key(disk_path@),
            final(self).keys() == if old(self).keys().contains(session_key(disk_path@)) {
                old(self).keys()
            } else {
                old(self).keys().push(session_key(disk_path@))
            },
            final(self).flags().len() == final(self).keys().len(),
            final(self).flags()[final(self).keys().index_of(session_key(disk_path@))] == r.1.flag_of(),
            r.1.serial_of() == old(self).next_serial_of(),
            final(self).serials()[final(self).keys().index_of(session_key(disk_path@))] == r.1.serial_of(),
            final(self).next_serial_of() == if old(self).next_serial_of() < u64::MAX {
                (old(self).next_serial_of() + 1) as u64
            } else {
                old(self).next_serial_of()
            },
    {
        let key = normalize_key(disk_path);
        let serial = self.next_serial;
        let token = CancellationToken::for_session(serial);
        let entry = (key.clone(), token.child(), payload);
        let ghost pos: int;
        match self.position_of(key.as_str()) {
            Some(i) => {
                let ghost before = self.keys();
                self.entries.set(i, entry);
                assert(self.keys() =~= before);
                proof {
                    pos = i as int;
                }
            },
            None => {
                let ghost before = self.keys();
                self.entries.push(entry);
                assert(self.keys() =~= before.push(session_key(disk_path@)));
                proof {
                    pos = before.len() as int;
                }
            },
        }
        proof {
            let ks = self.keys();
            let kk = session_key(disk_path@);
            assert(ks[pos] == kk);
            assert(ks.contains(kk));
            let j = ks.index_of(kk);
            assert(0 <= j < ks.len() && ks[j] == kk);
            if j != pos {
                if j < pos {
                    assert(ks[j] != ks[pos]);
                } else {
                    assert(ks[pos] != ks[j]);
                }
            }
            assert(self.flags()[pos] == self.entries@[pos].1.flag_of());
            assert(self.serials()[pos] == self.entries@[pos].1.serial_of());
        }
        let ghost mid = self.serials();
        let ghost n0 = self.next_serial;
        if self.next_serial < u64::MAX {
            self.next_serial = self.next_serial + 1;
        }
        proof {
            assert forall|a: int| 0 <= a < self.serials().len() implies #[trigger] self.serials()[a]
                < self.next_serial_of() || self.next_serial_of() == u64::MAX by {
                assert(self.serials()[a] == mid[a]);
                if a != pos {
                    assert(self.entries@[a] == old(self).entries@[a]);
                    assert(old(self).serials()[a] == mid[a]);
                }
            }
        }
        (key, token)
    }

    /// Cancels the session registered for the volume, if any, and gives a
    /// copy of its token with its payload; the entry stays until the
    /// session ends.
    pub fn take_existing(&self, disk_path: &str) -> (r: Option<(CancellationToken, &T)>)
        ensures
            r is Some <==> self.keys().contains(session_key(disk_path@)),
    {
        let key = normalize_key(disk_path);
        match self.position_of(key.as_str()) {
            Some(i) => {
                let entry = &self.entries[i];
                entry.1.cancel();
                assert(self.keys().contains(self.keys()[i as int]));
                Some((entry.1.child(), &entry.2))
            },
            None => None,
        }
    }

    /// Ends the registration of the volume when the session registered for
    /// it is the one `token` belongs to; otherwise changes nothing.
    pub fn unregister_if_matches(&mut self, disk_path: &str, token: &CancellationToken)
        requires
            old(self).wf(),
        ensures
            final(self).wf(),
            final(self).next_serial_of() == old(self).next_serial_of(),
            !old(self).keys().contains(session_key(disk_path@)) ==> final(self).keys() == old(self).keys(),
            old(self).keys().contains(session_key(disk_path@)) ==> ({
                let i = old(self).keys().index_of(session_key(disk_path@));
                if old(self).serials()[i] == token.serial_of() {
                    &&& final(self).keys() == old(self).keys().remove(i)
                    &&& final(self).serials() == old(self).serials().remove(i)
                } else {
                    &&& final(self).keys() == old(self).keys()
                    &&& final(self).serials() == old(self).serials()
                }
            }),
    {
        let key = normalize_key(disk_path);
        match self.position_of(key.as_str()) {
            Some(i) => {
                let ghost before = self.keys();
                let ghost sbefore = self.serials();
                proof {
                    let j = before.index_of(key@);
                    assert(before.contains(key@));
                    assert(0 <= j < before.len() && before[j] == key@);
                    if j != i {
                        if j < i {
                            assert(before[j] != before[i as int]);
                        } else {
                            assert(before[i as int] != before[j]);
                        }
                    }
                }
                if self.entries[i].1.same_session(token) {
                    proof {
                        assert(0 <= i < before.len() && before[i as int] == key@);
                        let j = before.index_of(key@);
                        assert(0 <= j < before.len() && before[j] == key@);
                        if j != i {
                            if j < i {
                                assert(before[j] != before[i as int]);
                            } else {
                                assert(before[i as int] != before[j]);
                            }
                        }
                    }
                    let _ = self.entries.remove(i);
                    assert(self.keys() =~= before.remove(i as int));
                    assert(self.serials() =~= sbefore.remove(i as int));
                }
            },
            None => {},
        }
    }

    /// Cancels the session of the volume, if any.
    pub fn cancel(&self, disk_path: &str) {
        let key = normalize_key(disk_path);
        match self.position_of(key.as_str()) {
            Some(i) => {
                self.entries[i].1.cancel();
            },
            None => {},
        }
    }

    /// Cancels every session.
    pub fn cancel_all(&self) {
        let mut i: usize = 0;
        while i < self.entries.len()
            invariant
                i <= self.entries@.len(),
            decreases self.entries@.len() - i,
        {
            self.entries[i].1.cancel();
            i = i + 1;
        }
    }
}

} // verus!
