//! The wall clock.

use vstd::prelude::*;

verus! {

/// Seconds since the Unix epoch, from `std::time::SystemTime::now()` and
/// `duration_since(UNIX_EPOCH)`; `None` where the clock reads earlier than the
/// epoch, which is when `duration_since` returns its error. Nothing is stated
/// of the value: it depends on when the call is made.
#[verifier::external_body]
pub(crate) fn current_timestamp() -> Option<u64> {
    match std::time::SystemTime::now().duration_since(std::time::UNIX_EPOCH) {
        Ok(elapsed) => Some(elapsed.as_secs()),
        Err(_) => None,
    }
}

} // verus!
