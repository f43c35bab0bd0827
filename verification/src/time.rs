//! The wall clock.
use vstd::prelude::*;

use crate::numeric::Double;

verus! {

/// Calls `std::time::SystemTime::elapsed` on the epoch and takes the whole seconds and
/// the nanoseconds beyond them; nothing where the clock stands before the epoch.
/// Claims that the nanoseconds are short of a second. Two readings may differ.
#[verifier::external_body]
pub(crate) fn clock_reading() -> (r: Option<(u64, u32)>)
    ensures
        is_reading(r),
{
    match std::time::UNIX_EPOCH.elapsed() {
        Ok(d) => Some((d.as_secs(), d.subsec_nanos())),
        Err(_) => None,
    }
}

/// The clock can read so: the nanoseconds are short of a second.
pub open spec fn is_reading(reading: Option<(u64, u32)>) -> bool {
    reading matches Some(t) ==> t.1 < 1_000_000_000
}

/// A reading in whole milliseconds, in 64 bits; zero before the epoch.
pub open spec fn millis_of(reading: Option<(u64, u32)>) -> u64 {
    match reading {
        Some((secs, nanos)) => (secs * 1000 + nanos / 1_000_000) as u64,
        None => 0,
    }
}

/// A reading in seconds; zero before the epoch.
pub open spec fn seconds_of(reading: Option<(u64, u32)>) -> Double {
    match reading {
        Some((secs, nanos)) => Double::from_u64(secs).add(
            Double::from_u64(nanos as u64).div(Double::from_u64(1_000_000_000)),
        ),
        None => Double::zero(),
    }
}

/// A reading in whole milliseconds.
pub fn millis_at(reading: Option<(u64, u32)>) -> (r: u64)
    ensures
        r == millis_of(reading),
{
    match reading {
        Some((secs, nanos)) => {
            let millis: u128 = secs as u128 * 1000 + (nanos / 1_000_000) as u128;
            assert(millis == secs * 1000 + nanos / 1_000_000);
            #[verifier::truncate] (millis as u64)
        },
        None => 0,
    }
}

/// A reading in seconds.
pub fn seconds_at(reading: Option<(u64, u32)>) -> (r: Double)
    ensures
        r == seconds_of(reading),
{
    match reading {
        Some((secs, nanos)) => Double::from_u64(secs).add(
            Double::from_u64(nanos as u64).div(Double::from_u64(1_000_000_000)),
        ),
        None => Double::zero(),
    }
}

/// Milliseconds since the epoch: those of the reading that the call takes, which is one
/// with less than a second of nanoseconds.
pub fn now_millis() -> (r: u64)
    ensures
        exists|reading: Option<(u64, u32)>|
            r == #[trigger] millis_of(reading) && is_reading(reading),
{
    let reading: Option<(u64, u32)> = clock_reading();
    millis_at(reading)
}

/// Seconds since the epoch: those of the reading that the call takes.
pub fn now_seconds() -> (r: Double)
    ensures
        exists|reading: Option<(u64, u32)>|
            r == #[trigger] seconds_of(reading) && is_reading(reading),
{
    let reading: Option<(u64, u32)> = clock_reading();
    seconds_at(reading)
}

/// The milliseconds of a reading are the whole ones that have passed, where they fit into 64
/// bits, and a later reading never has fewer.
pub proof fn law_milliseconds_keep_order(earlier: (u64, u32), later: (u64, u32))
    requires
        earlier.1 < 1_000_000_000,
        later.1 < 1_000_000_000,
        later.0 * 1000 + 999 <= u64::MAX,
        earlier.0 * 1_000_000_000 + earlier.1 <= later.0 * 1_000_000_000 + later.1,
    ensures
        millis_of(Some(earlier)) <= millis_of(Some(later)),
        millis_of(Some(later)) * 1_000_000 <= later.0 * 1_000_000_000 + later.1 < (millis_of(
            Some(later),
        ) + 1) * 1_000_000,
{
}

} // verus!
