//! Delay between attempts to bind the listening address.

use vstd::arithmetic::power2::{lemma2_to64, pow2};
use vstd::prelude::*;

verus! {

/// Longest delay between two bind attempts, in seconds.
pub const MAX_BIND_DELAY_SECONDS: u64 = 16;

/// Seconds to wait after failed attempt number `attempt` (counted from 1):
/// doubling from one second, capped at sixteen.
pub fn calculate_delay_seconds(attempt: u32) -> (r: u64)
    requires
        attempt >= 1,
    ensures
        r == if attempt >= 5 { MAX_BIND_DELAY_SECONDS as nat } else { pow2((attempt - 1) as nat) },
{
    proof {
        lemma2_to64();
    }
    if attempt >= 5 {
        MAX_BIND_DELAY_SECONDS
    } else if attempt == 1 {
        1
    } else if attempt == 2 {
        2
    } else if attempt == 3 {
        4
    } else {
        8
    }
}

} // verus!
