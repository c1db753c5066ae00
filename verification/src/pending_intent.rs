//! A scan asked for before a restart with elevation, and when it expires.
use vstd::prelude::*;

verus! {

/// An intent lives this many seconds.
pub const PENDING_INTENT_TTL_SECS: i64 = 600;

/// A scan of `disk` asked for at `requested_at` (seconds and nanoseconds
/// since the epoch, UTC).
pub struct PendingScanIntent {
    pub disk: String,
    pub requested_at_secs: i64,
    pub requested_at_nanos: u32,
    pub requested_with_elevation: bool,
}

/// The time from the request to `now`, in nanoseconds.
pub open spec fn elapsed_nanos(i: PendingScanIntent, now_secs: i64, now_nanos: u32) -> int {
    (now_secs - i.requested_at_secs) * 1_000_000_000 + (now_nanos - i.requested_at_nanos)
}

impl PendingScanIntent {
    /// An intent asked for now.
    pub fn new(disk: String, requested_with_elevation: bool, now_secs: i64, now_nanos: u32) -> (r: PendingScanIntent)
        ensures
            r.disk == disk,
            r.requested_at_secs == now_secs,
            r.requested_at_nanos == now_nanos,
            r.requested_with_elevation == requested_with_elevation,
    {
        PendingScanIntent { disk, requested_at_secs: now_secs, requested_at_nanos: now_nanos, requested_with_elevation }
    }

    /// Expired when `now` is before the request (a clock set back) or more
    /// than the lifetime after it.
    pub fn is_expired(&self, now_secs: i64, now_nanos: u32) -> (r: bool)
        ensures
            r == (elapsed_nanos(*self, now_secs, now_nanos) < 0 || elapsed_nanos(*self, now_secs, now_nanos)
                > PENDING_INTENT_TTL_SECS * 1_000_000_000),
    {
        let secs: i128 = (now_secs as i128) - (self.requested_at_secs as i128);
        let nanos: i128 = (now_nanos as i128) - (self.requested_at_nanos as i128);
        let elapsed: i128 = secs * 1_000_000_000 + nanos;
        elapsed < 0 || elapsed > (PENDING_INTENT_TTL_SECS as i128) * 1_000_000_000
    }
}

} // verus!
