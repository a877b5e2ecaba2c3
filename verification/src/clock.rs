//! The wall clock, in milliseconds since the Unix epoch.

use std::time::UNIX_EPOCH;
use vstd::prelude::*;

verus! {

/// `SystemTime::elapsed`, called on the Unix epoch, reads the system clock; a clock that
/// stands before the epoch gives `None`. Nothing is claimed of the reading.
#[verifier::external_body]
pub(crate) fn millis_since_epoch() -> (elapsed: Option<u128>) {
    UNIX_EPOCH.elapsed().map(|elapsed| elapsed.as_millis()).ok()
}

/// The time that a server takes a clock reading for: a clock before the epoch reads as zero,
/// and a reading beyond 64 bits as the greatest value.
pub open spec fn server_time(elapsed: Option<u128>) -> u64 {
    match elapsed {
        Some(millis) => if millis <= u64::MAX {
            millis as u64
        } else {
            u64::MAX
        },
        None => 0,
    }
}

/// The time that a server takes a clock reading for.
pub fn server_millis(elapsed: Option<u128>) -> (now_ms: u64)
    ensures
        now_ms == server_time(elapsed),
{
    match elapsed {
        Some(millis) => if millis <= u64::MAX as u128 {
            millis as u64
        } else {
            u64::MAX
        },
        None => 0,
    }
}

/// The current time of a server.
pub fn now_millis() -> (now_ms: u64)
    ensures
        exists|elapsed: Option<u128>| now_ms == #[trigger] server_time(elapsed),
{
    let elapsed = millis_since_epoch();
    server_millis(elapsed)
}

} // verus!
