//! The BTC trade feed.
use std::collections::VecDeque;

use vstd::prelude::*;

use crate::config::AppConfig;
use crate::events::bus::{FeedSource, MarketEvent};
use crate::json::json_document;
use crate::market_data::btc5m_tracker::{note_time, times_after};
use crate::market_data::normalizer::{normalize_binance_trade, trade_of, TradeError};
use crate::market_data::price_validator::elapsed_ms;
use crate::market_data::reconnect::{doubled, next_backoff, Pause};
use crate::market_data::state::{
    fits_millis, history_after, BtcTick, LatencyState, MarketState,
};
use crate::numeric::Double;

verus! {

/// The longest delay between two connections, in seconds.
pub const MAX_BACKOFF_SECS: u64 = 60;

/// What follows when the stream is done, in whatever way: the delay doubles, and the wait
/// is announced.
pub fn after_stream(backoff_secs: u64) -> (r: Pause)
    requires
        backoff_secs * 2 <= u64::MAX,
    ensures
        r == (Pause {
            delay_secs: backoff_secs,
            backoff_secs: doubled(backoff_secs, MAX_BACKOFF_SECS),
            announced: true,
        }),
{
    Pause {
        delay_secs: backoff_secs,
        backoff_secs: next_backoff(backoff_secs, MAX_BACKOFF_SECS),
        announced: true,
    }
}

/// Number of latencies that the average is taken over.
pub const LATENCY_WINDOW: usize = 10;

/// Latencies from here on are not averaged, in milliseconds.
pub const LATENCY_CEILING_MS: u64 = 5000;

/// A connection of the trade feed.
pub struct BinanceSession {
    pub latency_window: VecDeque<u64>,
    /// When trades came, within the last five seconds of the last one.
    pub msg_timestamps: VecDeque<u64>,
    pub ping_sent_at_ms: Option<u64>,
}

/// The sum of latencies.
pub open spec fn total(window: Seq<u64>) -> nat
    decreases window.len(),
{
    if window.len() == 0 {
        0
    } else {
        total(window.drop_last()) + window.last() as nat
    }
}

/// The window after another latency: one below the ceiling pushes the oldest out of a
/// full window, any other leaves it as it is.
pub open spec fn window_after(window: Seq<u64>, latency_ms: u64) -> Seq<u64> {
    if latency_ms >= LATENCY_CEILING_MS {
        window
    } else if window.len() >= LATENCY_WINDOW {
        window.drop_first().push(latency_ms)
    } else {
        window.push(latency_ms)
    }
}

/// The average over a window; the latency itself where that is empty.
pub open spec fn average_latency(window: Seq<u64>, latency_ms: u64) -> u64 {
    if window.len() == 0 {
        latency_ms
    } else {
        (total(window) / window.len()) as u64
    }
}

/// At most so many latencies, all below the ceiling.
pub open spec fn window_is_valid(window: Seq<u64>) -> bool {
    window.len() <= LATENCY_WINDOW && forall|i: int|
        0 <= i < window.len() ==> (#[trigger] window[i]) < LATENCY_CEILING_MS
}

/// Another latency leaves the window valid.
pub proof fn law_window_stays_valid(window: Seq<u64>, latency_ms: u64)
    requires
        window_is_valid(window),
    ensures
        window_is_valid(window_after(window, latency_ms)),
{
}

proof fn lemma_total_bound(window: Seq<u64>)
    requires
        forall|i: int| 0 <= i < window.len() ==> (#[trigger] window[i]) < LATENCY_CEILING_MS,
    ensures
        total(window) <= window.len() * LATENCY_CEILING_MS,
    decreases window.len(),
{
    if window.len() > 0 {
        lemma_total_bound(window.drop_last());
        assert(window[window.len() - 1] < LATENCY_CEILING_MS);
    }
}

/// The average of a valid window that is not empty is below the ceiling.
pub proof fn law_average_is_below_ceiling(window: Seq<u64>, latency_ms: u64)
    requires
        window_is_valid(window),
        window.len() > 0,
    ensures
        average_latency(window, latency_ms) < LATENCY_CEILING_MS,
{
    lemma_total_below(window);
    let n = window.len() as int;
    let t = total(window) as int;
    let q = t / n;
    vstd::arithmetic::div_mod::lemma_fundamental_div_mod(t, n);
    if q >= 5000 {
        assert(n * q >= n * 5000) by (nonlinear_arith)
            requires
                q >= 5000,
                n > 0,
        ;
        assert(n * 5000 == window.len() * LATENCY_CEILING_MS);
    }
}

proof fn lemma_total_below(window: Seq<u64>)
    requires
        window.len() > 0,
        forall|i: int| 0 <= i < window.len() ==> (#[trigger] window[i]) < LATENCY_CEILING_MS,
    ensures
        total(window) < window.len() * LATENCY_CEILING_MS,
{
    lemma_total_bound(window.drop_last());
    assert(window[window.len() - 1] < LATENCY_CEILING_MS);
}

fn average(window: &VecDeque<u64>, latency_ms: u64) -> (r: u64)
    requires
        window_is_valid(window@),
    ensures
        r == average_latency(window@, latency_ms),
{
    if window.len() == 0 {
        return latency_ms;
    }
    let mut sum: u64 = 0;
    let mut i: usize = 0;
    while i < window.len()
        invariant
            i <= window@.len(),
            window_is_valid(window@),
            sum == total(window@.take(i as int)),
            sum <= i * LATENCY_CEILING_MS,
        decreases window@.len() - i,
    {
        assert(window@.take(i + 1).drop_last() =~= window@.take(i as int));
        assert(window@[i as int] < LATENCY_CEILING_MS);
        sum = sum + window[i];
        i = i + 1;
    }
    assert(window@.take(i as int) =~= window@);
    sum / window.len() as u64
}

/// The windows that ticks are measured over fit into milliseconds.
pub open spec fn windows_fit(config: &AppConfig) -> bool {
    config.state.btc_max_ticks > 0 ==> {
        &&& fits_millis(config.state.btc_tick_window_secs)
        &&& fits_millis(config.btc5m.velocity_window_5s)
        &&& fits_millis(config.btc5m.velocity_window_10s)
        &&& fits_millis(config.btc5m.velocity_window_15s)
    }
}

fn fits(secs: u64) -> (r: bool)
    ensures
        r == fits_millis(secs),
{
    secs <= u64::MAX / 1000
}

/// Whether the windows that ticks are measured over fit into milliseconds.
pub fn windows_are_in_range(config: &AppConfig) -> (r: bool)
    ensures
        r == windows_fit(config),
{
    config.state.btc_max_ticks == 0 || fits(config.state.btc_tick_window_secs) && fits(
        config.btc5m.velocity_window_5s,
    ) && fits(config.btc5m.velocity_window_10s) && fits(config.btc5m.velocity_window_15s)
}

impl BinanceSession {
    pub fn new() -> (r: Self)
        ensures
            r.latency_window@.len() == 0,
            r.msg_timestamps@.len() == 0,
            r.ping_sent_at_ms is None,
            r.wf(),
    {
        BinanceSession {
            latency_window: VecDeque::new(),
            msg_timestamps: VecDeque::new(),
            ping_sent_at_ms: None,
        }
    }

    /// The latencies are those of a valid window.
    pub open spec fn wf(&self) -> bool {
        window_is_valid(self.latency_window@)
    }

    /// What a trade does: the state takes in the tick and the health of the feed, and both
    /// the tick and the averaged latency are told.
    pub open spec fn takes(
        &self,
        after: &BinanceSession,
        state: (MarketState, MarketState),
        config: &AppConfig,
        tick: BtcTick,
        now_ms: u64,
        events: Seq<MarketEvent>,
    ) -> bool {
        let raw_ms = elapsed_ms(now_ms, tick.event_time_ms);
        let latency_ms = average_latency(after.latency_window@, raw_ms);
        let btc = state.1.btc;
        &&& after.latency_window@ == window_after(self.latency_window@, raw_ms)
        &&& after.msg_timestamps@ == times_after(self.msg_timestamps@, 5000, now_ms)
        &&& after.ping_sent_at_ms == self.ping_sent_at_ms
        &&& btc.price == tick.price
        &&& btc.tick_history@ == history_after(
            state.0.btc.tick_history@,
            tick,
            config.state.btc_max_ticks as nat,
            config.state.btc_tick_window_secs,
        )
        &&& if config.state.btc_max_ticks > 0 {
            btc.measures(
                config.btc5m.velocity_window_5s,
                config.btc5m.velocity_window_10s,
                config.btc5m.velocity_window_15s,
            )
        } else {
            btc.same_metrics(&state.0.btc)
        }
        &&& btc.same_flow(&state.0.btc)
        &&& state.1 == (MarketState {
            btc,
            latency: LatencyState {
                binance_ms: latency_ms,
                binance_tick_rate: Double::from_u64(after.msg_timestamps@.len() as u64).div(
                    Double::from_u64(5),
                ),
                binance_last_msg_ms: now_ms,
                ..state.0.latency
            },
            last_updated_ms: now_ms,
            ..state.0
        })
        &&& events == seq![
            MarketEvent::BtcTick(tick),
            MarketEvent::LatencyAlert { source: FeedSource::Binance, latency_ms },
        ]
    }

    /// Takes in a trade.
    pub fn handle_trade(
        &mut self,
        state: &mut MarketState,
        config: &AppConfig,
        tick: BtcTick,
        now_ms: u64,
    ) -> (events: Vec<MarketEvent>)
        requires
            old(self).wf(),
            windows_fit(config),
        ensures
            final(self).wf(),
            old(self).takes(
                &*final(self),
                (*old(state), *final(state)),
                config,
                tick,
                now_ms,
                events@,
            ),
    {
        note_time(&mut self.msg_timestamps, 5000, now_ms);
        let tick_rate: Double = Double::from_u64(self.msg_timestamps.len() as u64).div(
            Double::from_u64(5),
        );
        state.btc.push_tick(
            tick,
            config.state.btc_max_ticks,
            config.state.btc_tick_window_secs,
            config.btc5m.velocity_window_5s,
            config.btc5m.velocity_window_10s,
            config.btc5m.velocity_window_15s,
        );
        let raw_ms: u64 = now_ms.saturating_sub(tick.event_time_ms);
        let ghost window = self.latency_window@;
        if raw_ms < LATENCY_CEILING_MS {
            if self.latency_window.len() >= LATENCY_WINDOW {
                let _ = self.latency_window.pop_front();
                assert(self.latency_window@ =~= window.drop_first());
            }
            self.latency_window.push_back(raw_ms);
        }
        proof {
            assert(self.latency_window@ =~= window_after(window, raw_ms));
            law_window_stays_valid(window, raw_ms);
        }
        let latency_ms: u64 = average(&self.latency_window, raw_ms);
        state.latency.binance_ms = latency_ms;
        state.latency.binance_tick_rate = tick_rate;
        state.latency.binance_last_msg_ms = now_ms;
        state.last_updated_ms = now_ms;
        let mut events: Vec<MarketEvent> = Vec::new();
        events.push(MarketEvent::BtcTick(tick));
        events.push(MarketEvent::LatencyAlert { source: FeedSource::Binance, latency_ms });
        assert(events@ =~= seq![
            MarketEvent::BtcTick(tick),
            MarketEvent::LatencyAlert { source: FeedSource::Binance, latency_ms },
        ]);
        events
    }

    /// Takes in a text message; one that is no trade changes nothing.
    pub fn handle_trade_message(
        &mut self,
        state: &mut MarketState,
        config: &AppConfig,
        raw: &str,
        now_ms: u64,
    ) -> (r: Result<Vec<MarketEvent>, TradeError>)
        requires
            old(self).wf(),
            windows_fit(config),
        ensures
            final(self).wf(),
            ({
                let trade = match json_document(raw@) {
                    Some(v) => trade_of(v),
                    None => Err(TradeError::NotJson),
                };
                match trade {
                    Ok(tick) => r is Ok && old(self).takes(
                        &*final(self),
                        (*old(state), *final(state)),
                        config,
                        tick,
                        now_ms,
                        r->Ok_0@,
                    ),
                    Err(e) => r is Err && r->Err_0 == e && *final(self) == *old(self)
                        && *final(state) == *old(state),
                }
            }),
    {
        match normalize_binance_trade(raw) {
            Ok(tick) => Ok(self.handle_trade(state, config, tick, now_ms)),
            Err(e) => Err(e),
        }
    }

    /// Notes that a ping was sent.
    pub fn on_ping_sent(&mut self, now_ms: u64)
        ensures
            *final(self) == (BinanceSession { ping_sent_at_ms: Some(now_ms), ..*old(self) }),
    {
        self.ping_sent_at_ms = Some(now_ms);
    }

    /// Takes the time of the answer to a ping, where one is awaited.
    pub fn on_pong(&mut self, state: &mut MarketState, now_ms: u64)
        ensures
            *final(self) == (BinanceSession { ping_sent_at_ms: None, ..*old(self) }),
            *final(state) == match old(self).ping_sent_at_ms {
                Some(sent) => MarketState {
                    latency: LatencyState {
                        binance_ping_ms: elapsed_ms(now_ms, sent),
                        ..old(state).latency
                    },
                    ..*old(state)
                },
                None => *old(state),
            },
    {
        if let Some(sent) = self.ping_sent_at_ms {
            state.latency.binance_ping_ms = now_ms.saturating_sub(sent);
            self.ping_sent_at_ms = None;
        }
    }
}

/// The average lies between the least and the greatest latency of the window.
pub proof fn law_average_lies_between(window: Seq<u64>, latency_ms: u64, low: u64, high: u64)
    requires
        window.len() > 0,
        forall|i: int| 0 <= i < window.len() ==> low <= (#[trigger] window[i]) <= high,
    ensures
        low <= average_latency(window, latency_ms) <= high,
{
    lemma_total_between(window, low, high);
    let n = window.len() as int;
    let t = total(window) as int;
    let q = t / n;
    vstd::arithmetic::div_mod::lemma_fundamental_div_mod(t, n);
    vstd::arithmetic::div_mod::lemma_mod_bound(t, n);
    assert(low <= q <= high) by (nonlinear_arith)
        requires
            n > 0,
            n * low <= t <= n * high,
            t == n * q + t % n,
            0 <= t % n < n,
    ;
}

proof fn lemma_total_between(window: Seq<u64>, low: u64, high: u64)
    requires
        forall|i: int| 0 <= i < window.len() ==> low <= (#[trigger] window[i]) <= high,
    ensures
        window.len() * low <= total(window) <= window.len() * high,
    decreases window.len(),
{
    if window.len() > 0 {
        let n = window.len() as int;
        lemma_total_between(window.drop_last(), low, high);
        assert(low <= window[n - 1] <= high);
        assert((n - 1) * low + low == n * low && (n - 1) * high + high == n * high)
            by (nonlinear_arith);
    } else {
        assert(0 * low == 0 && 0 * high == 0);
    }
}

/// The newest latency below the ceiling stands last, after as many of the ones before it as
/// there is room for, in their order; one that is too long is not kept.
pub proof fn law_window_keeps_the_newest(window: Seq<u64>, latency_ms: u64)
    requires
        window_is_valid(window),
    ensures
        ({
            let after = window_after(window, latency_ms);
            &&& latency_ms >= LATENCY_CEILING_MS ==> after == window
            &&& latency_ms < LATENCY_CEILING_MS ==> {
                let dropped = window.len() + 1 - after.len();
                &&& after.len() > 0 && after.last() == latency_ms
                &&& dropped == if window.len() == LATENCY_WINDOW {
                    1int
                } else {
                    0
                }
                &&& forall|i: int|
                    0 <= i < after.len() - 1 ==> #[trigger] after[i] == window[i + dropped]
            }
        }),
{
}

} // verus!
