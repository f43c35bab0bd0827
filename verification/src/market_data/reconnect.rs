//! How long a feed waits before it connects again.
use vstd::prelude::*;

verus! {

/// A wait before the next connection.
#[derive(Clone, Copy, Debug, PartialEq, Eq, Structural)]
pub struct Pause {
    pub delay_secs: u64,
    /// The delay that the next failure brings.
    pub backoff_secs: u64,
    /// The wait is announced as a reconnection.
    pub announced: bool,
}

/// Twice a delay, up to a limit.
pub open spec fn doubled(secs: u64, max_secs: u64) -> u64 {
    if secs * 2 < max_secs {
        (secs * 2) as u64
    } else {
        max_secs
    }
}

/// Doubles a delay, up to a limit.
pub fn next_backoff(secs: u64, max_secs: u64) -> (r: u64)
    requires
        secs * 2 <= u64::MAX,
    ensures
        r == doubled(secs, max_secs),
{
    let twice: u64 = secs * 2;
    if twice < max_secs {
        twice
    } else {
        max_secs
    }
}

/// Delays grow up to their limit and never beyond: the next one is twice as long, or the
/// limit.
pub proof fn law_delays_grow_to_their_limit(secs: u64, max_secs: u64)
    requires
        secs <= max_secs,
        secs > 0,
    ensures
        doubled(secs, max_secs) <= max_secs,
        doubled(secs, max_secs) >= secs,
        doubled(secs, max_secs) == secs <==> secs == max_secs,
        doubled(secs, max_secs) == max_secs <==> 2 * secs >= max_secs,
        doubled(secs, max_secs) == 2 * secs || doubled(secs, max_secs) == max_secs,
{
}

} // verus!
