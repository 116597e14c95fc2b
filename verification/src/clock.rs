//! The one place where the library looks at the system clock.

use vstd::prelude::*;

verus! {

/// Milliseconds that the system clock counts since the Unix epoch; zero if
/// the clock is set before the epoch.
///
/// Trusted: this reads `std::time::SystemTime::now` and nothing is claimed of
/// the number it gives, so callers are proved for every reading.
#[verifier::external_body]
pub(crate) fn unix_millis() -> (now: u64) {
    match std::time::SystemTime::now().duration_since(std::time::UNIX_EPOCH) {
        Ok(elapsed) => elapsed.as_millis() as u64,
        Err(_) => 0,
    }
}

} // verus!
