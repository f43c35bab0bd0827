//! The server's clock, followed from the local one.
use vstd::prelude::*;

use crate::json::{document_tree, json_document, parse_json, Json, JsonView};
use crate::numeric::Double;
use crate::numeric::order::{
    law_difference_has_a_sign, law_integer_is_a_number, law_nearest_exists,
    law_rounding_keeps_doubles, law_sum_keeps_order,
};
use crate::numeric::rounding::magnitude;
use crate::text::{strip_slashes, trim, trimmed, without_slashes};
use crate::time::{now_seconds, seconds_of};

verus! {

/// Length of a market's window in seconds.
pub const WINDOW_SECS: u64 = 300;

pub struct PolymarketClock {
    /// Server time less local time, in seconds.
    pub server_time_offset_secs: Double,
    /// When the clock was last synced, in nanoseconds of a steady clock.
    pub last_synced_at: Option<u64>,
    pub sync_interval_secs: u64,
}

/// The start of the window that a server time falls into.
pub open spec fn window_start(server_now: Double) -> u64 {
    let now = server_now.to_u64();
    (now - now % WINDOW_SECS) as u64
}

/// The window that a server time falls into ends within 64 bits.
pub open spec fn window_fits(server_now: Double) -> bool {
    window_start(server_now) + WINDOW_SECS <= u64::MAX
}

/// Seconds left in the window that a server time falls into.
pub open spec fn window_left(server_now: Double) -> u64 {
    (window_start(server_now) + WINDOW_SECS - server_now.to_u64()) as u64
}

/// The time in a reply of the server: a number or decimal text under `time`, or else
/// the reply itself as a decimal.
pub open spec fn server_time_of(document: Option<JsonView>, text: Seq<char>) -> Option<Double> {
    let whole = Double::reading(trimmed(text));
    match document {
        None => whole,
        Some(v) => if v.number_field("time"@) is Some {
            v.number_field("time"@)
        } else if v.text_field("time"@) is Some {
            v.decimal_field("time"@)
        } else {
            whole
        },
    }
}

/// Reads the time in a parsed reply of the server.
pub fn server_time(document: &Option<Json>, text: &str) -> (r: Option<Double>)
    ensures
        r == server_time_of(document_tree(*document), text@),
{
    match document {
        None => {},
        Some(v) => {
            if let Some(t) = v.get_number("time") {
                return Some(t);
            }
            if let Some(s) = v.get_text("time") {
                return Double::parse(s);
            }
        },
    }
    Double::parse(trim(text).as_str())
}

/// Reads the time in a reply of the server.
pub fn read_server_time(text: &str) -> (r: Option<Double>)
    ensures
        r == server_time_of(json_document(text@), text@),
{
    let document: Option<Json> = parse_json(text);
    server_time(&document, text)
}

/// The address that tells the server's time.
pub fn time_url(clob_api: &str) -> (r: String)
    ensures
        r@ == without_slashes(clob_api@) + "/time"@,
{
    strip_slashes(clob_api).concat("/time")
}

/// The start of the window that a server time falls into.
pub fn window_ts(server_now: Double) -> (r: u64)
    ensures
        r == window_start(server_now),
        r % WINDOW_SECS == 0,
{
    let now: u64 = server_now.to_u64();
    now - now % WINDOW_SECS
}

impl PolymarketClock {
    pub fn new(sync_interval_secs: u64) -> (r: Self)
        ensures
            r.server_time_offset_secs == Double::zero(),
            r.last_synced_at is None,
            r.sync_interval_secs == sync_interval_secs,
    {
        PolymarketClock {
            server_time_offset_secs: Double::zero(),
            last_synced_at: None,
            sync_interval_secs,
        }
    }

    /// The server time at a local time.
    pub open spec fn server_time_at(&self, local_now: Double) -> Double {
        local_now.add(self.server_time_offset_secs)
    }

    /// The server time at a local time, in seconds since the epoch.
    pub fn now_at(&self, local_now: Double) -> (r: Double)
        ensures
            r == self.server_time_at(local_now),
    {
        local_now.add(self.server_time_offset_secs)
    }

    /// The server time, in seconds since the epoch.
    pub fn now(&self) -> (r: Double)
        ensures
            exists|reading: Option<(u64, u32)>|
                r == self.server_time_at(#[trigger] seconds_of(reading)),
    {
        self.now_at(now_seconds())
    }

    /// The clock with the server's time as it was at a local time.
    pub open spec fn synced(self, server_time: Double, local_now: Double, now_nanos: u64)
        -> PolymarketClock {
        PolymarketClock {
            server_time_offset_secs: server_time.sub(local_now),
            last_synced_at: Some(now_nanos),
            ..self
        }
    }

    /// How far the server's time is from where the clock would show it, where the clock was
    /// synced before and that is more than five seconds.
    pub open spec fn drift(self, server_time: Double, local_now: Double) -> Option<Double> {
        let moved = server_time.sub(local_now).sub(self.server_time_offset_secs).abs();
        if self.last_synced_at is Some && moved.gt(Double::from_u64(5)) {
            Some(moved)
        } else {
            None
        }
    }

    /// The clock was never synced, or not within its interval.
    pub open spec fn is_due(self, now_nanos: u64) -> bool {
        match self.last_synced_at {
            None => true,
            Some(last) => last <= now_nanos && (now_nanos - last) / 1_000_000_000
                >= self.sync_interval_secs || self.sync_interval_secs == 0,
        }
    }

    /// Takes over the server's time as it was at a local time. The result is the
    /// drift since the last sync, where that is more than five seconds.
    pub fn apply_sync(&mut self, server_time: Double, local_now: Double, now_nanos: u64) -> (drift:
        Option<Double>)
        ensures
            *final(self) == old(self).synced(server_time, local_now, now_nanos),
            drift == old(self).drift(server_time, local_now),
    {
        let new_offset: Double = server_time.sub(local_now);
        let moved: Double = new_offset.sub(self.server_time_offset_secs).abs();
        let drift: Option<Double> = if self.last_synced_at.is_some() && moved.gt(
            Double::from_u64(5),
        ) {
            Some(moved)
        } else {
            None
        };
        self.server_time_offset_secs = new_offset;
        self.last_synced_at = Some(now_nanos);
        drift
    }

    /// The server's offset in whole milliseconds.
    pub fn offset_ms(&self) -> (r: i64)
        ensures
            r == self.server_time_offset_secs.mul(Double::from_u64(1000)).to_i64(),
    {
        self.server_time_offset_secs.mul(Double::from_u64(1000)).to_i64()
    }

    /// Whether the clock was never synced or not within its interval, at a time of the
    /// steady clock.
    pub fn needs_sync(&self, now_nanos: u64) -> (r: bool)
        ensures
            r == self.is_due(now_nanos),
    {
        match self.last_synced_at {
            None => true,
            Some(last) => now_nanos.saturating_sub(last) / 1_000_000_000 >= self.sync_interval_secs,
        }
    }

    /// The start of the current window.
    pub fn current_window_ts(&self) -> (r: u64)
        ensures
            exists|reading: Option<(u64, u32)>|
                r == window_start(self.server_time_at(#[trigger] seconds_of(reading))),
            r % WINDOW_SECS == 0,
    {
        window_ts(self.now())
    }

    /// The start of the next window; nothing where it does not fit into 64 bits.
    pub fn next_window_ts(&self) -> (r: Option<u64>)
        ensures
            exists|reading: Option<(u64, u32)>|
                {
                    let now = self.server_time_at(#[trigger] seconds_of(reading));
                    r == if window_fits(now) {
                        Some((window_start(now) + WINDOW_SECS) as u64)
                    } else {
                        None
                    }
                },
    {
        next_window(self.now())
    }

    /// Seconds left in the current window; nothing where its end does not fit into
    /// 64 bits.
    pub fn secs_remaining(&self) -> (r: Option<u64>)
        ensures
            exists|reading: Option<(u64, u32)>|
                {
                    let now = self.server_time_at(#[trigger] seconds_of(reading));
                    r == if window_fits(now) {
                        Some(window_left(now))
                    } else {
                        None
                    }
                },
    {
        secs_left(self.now())
    }
}

/// The start of the window after the one that a server time falls into; nothing where it
/// does not fit into 64 bits.
pub fn next_window(server_now: Double) -> (r: Option<u64>)
    ensures
        r == if window_fits(server_now) {
            Some((window_start(server_now) + WINDOW_SECS) as u64)
        } else {
            None
        },
{
    window_ts(server_now).checked_add(WINDOW_SECS)
}

/// Seconds left in the window that a server time falls into; nothing where its end
/// does not fit into 64 bits.
pub fn secs_left(server_now: Double) -> (r: Option<u64>)
    ensures
        r == if window_fits(server_now) {
            Some(window_left(server_now))
        } else {
            None
        },
{
    match window_ts(server_now).checked_add(WINDOW_SECS) {
        Some(end) => Some(end.saturating_sub(server_now.to_u64())),
        None => None,
    }
}

/// A window starts on a multiple of its length, at or before the time in it, and has
/// between one second and its whole length left.
pub proof fn law_time_lies_in_its_window(server_now: Double)
    requires
        window_fits(server_now),
    ensures
        window_start(server_now) % WINDOW_SECS == 0,
        window_start(server_now) <= server_now.to_u64() < window_start(server_now) + WINDOW_SECS,
        0 < window_left(server_now) <= WINDOW_SECS,
        server_now.to_u64() + window_left(server_now) == window_start(server_now) + WINDOW_SECS,
{
}

/// A clock that was just synced shows the server's time, where the distance of the two
/// clocks is a double; it runs ahead exactly where the server does.
pub proof fn law_synced_clock_shows_server_time(
    clock: PolymarketClock,
    server_time: Double,
    local_now: Double,
    now_nanos: u64,
)
    requires
        server_time.is_finite(),
        local_now.is_finite(),
        server_time.sub(local_now).is_finite(),
    ensures
        ({
            let after = clock.synced(server_time, local_now, now_nanos);
            let offset = after.server_time_offset_secs;
            &&& offset.value() > 0 <==> server_time.value() > local_now.value()
            &&& offset.value() < 0 <==> server_time.value() < local_now.value()
            &&& offset.value() == server_time.value() - local_now.value()
                ==> after.server_time_at(local_now).value() == server_time.value()
            &&& after.sync_interval_secs == clock.sync_interval_secs
            &&& !after.is_due(now_nanos) || clock.sync_interval_secs == 0
        }),
{
    reveal(Double::spec_add);
    assert(magnitude(0) == 0);
    law_difference_has_a_sign(server_time, local_now);
    law_rounding_keeps_doubles(server_time.pattern());
    law_nearest_exists(server_time.size(), 1);
}

/// A later local time is never an earlier server time.
pub proof fn law_server_time_keeps_order(clock: PolymarketClock, earlier: Double, later: Double)
    requires
        earlier.is_finite(),
        later.is_finite(),
        earlier.value() <= later.value(),
        clock.server_time_offset_secs.is_finite(),
    ensures
        clock.server_time_at(earlier).value() <= clock.server_time_at(later).value(),
{
    law_sum_keeps_order(earlier, later, clock.server_time_offset_secs);
}

/// A synced clock is due again once its interval has passed, and not before.
pub proof fn law_sync_is_due_after_its_interval(clock: PolymarketClock, now_nanos: u64)
    requires
        clock.last_synced_at is Some,
        clock.last_synced_at->0 <= now_nanos,
    ensures
        clock.is_due(now_nanos) <==> now_nanos - clock.last_synced_at->0 >= 1_000_000_000
            * clock.sync_interval_secs,
{
}

/// Drift is told of a clock that was synced before, and only of more than five seconds; a
/// clock whose offset is what it was has none.
pub proof fn law_drift_is_more_than_five_seconds(
    clock: PolymarketClock,
    server_time: Double,
    local_now: Double,
)
    requires
        server_time.sub(local_now).is_finite(),
        clock.server_time_offset_secs.is_finite(),
    ensures
        clock.drift(server_time, local_now) matches Some(moved) ==> clock.last_synced_at is Some
            && moved.value() > Double::from_u64(5).value(),
        server_time.sub(local_now).value() == clock.server_time_offset_secs.value()
            ==> clock.drift(server_time, local_now) is None,
{
    reveal(Double::spec_lt);
    reveal(Double::spec_abs);
    assert(magnitude(0) == 0);
    law_difference_has_a_sign(server_time.sub(local_now), clock.server_time_offset_secs);
    law_integer_is_a_number(5);
}

} // verus!
