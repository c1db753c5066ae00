//! The wall clock.
use vstd::prelude::*;

verus! {

/// Milliseconds since the Unix epoch as `SystemTime::now` gives them, or 0
/// when the clock reads before the epoch. Nothing is promised of the value.
#[verifier::external_body]
pub(crate) fn now_millis() -> (r: u64) {
    match std::time::SystemTime::now().duration_since(std::time::UNIX_EPOCH) {
        Ok(d) => d.as_millis() as u64,
        Err(_) => 0,
    }
}

} // verus!
