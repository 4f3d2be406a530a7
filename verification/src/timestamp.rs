//! Wall-clock seconds, behind a trusted wrapper.

use vstd::prelude::*;

verus! {

/// Relies on std::time::SystemTime::now: seconds since the Unix epoch, or 0
/// if the clock reads before the epoch. The value depends on the clock, so
/// nothing is promised of it.
#[verifier::external_body]
pub fn get_timestamp() -> u64 {
    match std::time::SystemTime::now().duration_since(std::time::UNIX_EPOCH) {
        Ok(d) => d.as_secs(),
        Err(_) => 0,
    }
}

} // verus!
