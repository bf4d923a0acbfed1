//! The retry policy around fetching the mirror catalog.
use vstd::prelude::*;

verus! {

/// Fetch attempts made before giving up.
pub const MAX_FETCH_ATTEMPTS: u32 = 5;

/// The wait after the first failed attempt, in milliseconds; each further failure doubles it.
pub const BASE_DELAY_MS: u64 = 1000;

/// What to do after a transport failure of the catalog fetch. A body that arrives but does
/// not parse is fatal at once and never comes here.
#[derive(Debug, Clone, Copy, PartialEq, Eq, Structural)]
pub enum FetchStep {
    /// Wait this many milliseconds, then try again.
    Retry { delay_ms: u64 },
    /// Stop and report the last failure.
    GiveUp,
}

pub open spec fn pow2(n: nat) -> nat
    decreases n,
{
    if n == 0 {
        1
    } else {
        2 * pow2((n - 1) as nat)
    }
}

/// The step after `failures` failed attempts: give up at `MAX_FETCH_ATTEMPTS`, else retry
/// after `BASE_DELAY_MS * 2^(failures - 1)` milliseconds (no wait before any failure).
pub open spec fn fetch_step(failures: u32) -> FetchStep {
    if failures >= MAX_FETCH_ATTEMPTS {
        FetchStep::GiveUp
    } else if failures == 0 {
        FetchStep::Retry { delay_ms: 0 }
    } else {
        FetchStep::Retry { delay_ms: (BASE_DELAY_MS * pow2((failures - 1) as nat)) as u64 }
    }
}

/// Decides what follows the `failures`-th failed attempt to fetch the catalog.
pub fn next_fetch_step(failures: u32) -> (r: FetchStep)
    ensures
        r == fetch_step(failures),
{
    if failures >= MAX_FETCH_ATTEMPTS {
        return FetchStep::GiveUp;
    }
    if failures == 0 {
        return FetchStep::Retry { delay_ms: 0 };
    }
    let mut delay: u64 = BASE_DELAY_MS;
    let mut k: u32 = 1;
    while k < failures
        invariant
            1 <= k <= failures < MAX_FETCH_ATTEMPTS,
            delay == BASE_DELAY_MS * pow2((k - 1) as nat),
        decreases failures - k,
    {
        assert(pow2(k as nat) == 2 * pow2((k - 1) as nat));
        assert(pow2((k - 1) as nat) <= 8) by {
            assert(pow2(0) == 1);
            assert(pow2(1) == 2);
            assert(pow2(2) == 4);
            assert(pow2(3) == 8);
        }
        delay = delay * 2;
        k = k + 1;
    }
    FetchStep::Retry { delay_ms: delay }
}

} // verus!
