//! The wall clock.

use vstd::prelude::*;

verus! {

/// Seconds since 1970 by `std::time::SystemTime::elapsed` on the epoch; zero
/// where the clock stands before it. The value depends on the machine's clock,
/// so nothing is promised of it.
#[verifier::external_body]
pub(crate) fn unix_seconds() -> u64
{
    std::time::UNIX_EPOCH.elapsed().map(|d| d.as_secs()).unwrap_or(0)
}

} // verus!
