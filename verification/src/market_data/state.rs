//! The state that the feeds keep and the strategies read.
use std::collections::VecDeque;

use vstd::prelude::*;
use vstd::arithmetic::power2::{
    pow2, lemma_pow2_adds, lemma_pow2_pos, lemma2_to64, lemma2_to64_rest,
};

use crate::market_data::clock_sync::WINDOW_SECS;
use crate::numeric::Double;
use crate::numeric::arithmetic::one_in_units;
use crate::numeric::order::{
    law_complement_sums_to_one, law_difference_has_a_sign, law_difference_is_exact,
    law_integer_is_a_number, law_integers_keep_order, law_nearest_exists, law_product_grows,
    law_product_with_one, law_quotient_by_one, law_quotient_keeps_order, law_quotient_keeps_sign,
    law_quotient_shrinks, law_quotients_of_opposites, law_ratio_is_above_zero,
    law_ratio_is_finite, law_ratio_up_to_one, law_rounding_keeps_doubles,
    law_rounding_keeps_order, law_self_quotient_is_one, law_self_ratio_is_one, law_sum_commutes,
    law_sum_keeps_order, law_sum_of_one_value, law_sum_of_twins_is_exact,
    law_swapped_difference_is_opposite, law_value_determines_number, lemma_half,
    lemma_half_of_twins, lemma_one, lemma_ratio_is, lemma_rounds_above_zero,
    lemma_sum_is_not_negative, lemma_zero_over,
};
use crate::numeric::rounding::{
    lemma_magnitude_increases, lemma_magnitude_of_mantissa, magnitude, nearest, FRACTION,
};
use crate::text::same_text;

verus! {

/// Which side initiated the trade.
#[derive(Clone, Copy, Debug, PartialEq, Eq, Structural)]
pub enum TradeSide {
    Buy,
    Sell,
}

/// Momentum class of price velocity and volume delta together.
#[derive(Clone, Copy, Debug, PartialEq, Eq, Structural)]
pub enum MicroTrend {
    Bullish,
    Bearish,
    Choppy,
}

impl MicroTrend {
    pub open spec fn word(self) -> Seq<char> {
        match self {
            MicroTrend::Bullish => "Bullish"@,
            MicroTrend::Bearish => "Bearish"@,
            MicroTrend::Choppy => "Choppy"@,
        }
    }

    pub fn as_str(&self) -> (r: &'static str)
        ensures
            r@ == self.word(),
    {
        match self {
            MicroTrend::Bullish => "Bullish",
            MicroTrend::Bearish => "Bearish",
            MicroTrend::Choppy => "Choppy",
        }
    }
}

#[derive(Clone, Copy, Debug, PartialEq, Eq, Structural)]
pub enum VelocityTrend {
    Accelerating,
    Stable,
    Tapering,
}

impl VelocityTrend {
    pub open spec fn word(self) -> Seq<char> {
        match self {
            VelocityTrend::Accelerating => "Accelerating"@,
            VelocityTrend::Stable => "Stable"@,
            VelocityTrend::Tapering => "Tapering"@,
        }
    }

    pub fn as_str(&self) -> (r: &'static str)
        ensures
            r@ == self.word(),
    {
        match self {
            VelocityTrend::Accelerating => "Accelerating",
            VelocityTrend::Stable => "Stable",
            VelocityTrend::Tapering => "Tapering",
        }
    }
}

/// One BTC trade.
#[derive(Clone, Copy, Debug)]
pub struct BtcTick {
    pub price: Double,
    pub quantity: Double,
    pub side: TradeSide,
    pub timestamp_ms: u64,
    pub event_time_ms: u64,
}

/// Rolling state of the BTC market.
pub struct BtcState {
    /// Latest trade price.
    pub price: Double,
    /// Price change per second over the ten-second window.
    pub price_velocity: Double,
    /// Price change per second over the five-second window.
    pub velocity_5s: Double,
    /// Price change per second over the fifteen-second window.
    pub velocity_15s: Double,
    pub velocity_trend: VelocityTrend,
    /// Bought volume less sold volume in the history.
    pub volume_delta: Double,
    /// Standard deviation of the prices in the history.
    pub volatility: Double,
    pub microtrend: MicroTrend,
    /// Share of the order flow that buys.
    pub order_flow_ratio: Double,
    /// How steadily the price has moved in one direction.
    pub velocity_consistency: Double,
    pub price_acceleration: Double,
    /// The ticks kept, oldest first.
    pub tick_history: VecDeque<BtcTick>,
}

/// A window of seconds fits into a count of milliseconds.
pub open spec fn fits_millis(secs: u64) -> bool {
    secs * 1000 <= u64::MAX
}

/// `a` less `b`, but not below zero.
pub open spec fn difference(a: u64, b: int) -> u64 {
    if a < b {
        0
    } else {
        (a - b) as u64
    }
}

/// How many ticks at the front are older than the cutoff.
pub open spec fn stale_prefix(ticks: Seq<BtcTick>, cutoff_ms: u64) -> nat
    decreases ticks.len(),
{
    if ticks.len() == 0 || ticks[0].timestamp_ms >= cutoff_ms {
        0
    } else {
        1 + stale_prefix(ticks.drop_first(), cutoff_ms)
    }
}

/// The newest `max_ticks` of the ticks.
pub open spec fn newest(ticks: Seq<BtcTick>, max_ticks: nat) -> Seq<BtcTick> {
    if ticks.len() > max_ticks {
        ticks.skip(ticks.len() - max_ticks)
    } else {
        ticks
    }
}

/// The history after a tick: the newest ticks, less those at the front that fell
/// out of the window that ends with the tick.
pub open spec fn history_after(
    ticks: Seq<BtcTick>,
    tick: BtcTick,
    max_ticks: nat,
    window_secs: u64,
) -> Seq<BtcTick> {
    let kept = newest(ticks.push(tick), max_ticks);
    if kept.len() == 0 {
        kept
    } else {
        let cutoff = difference(tick.timestamp_ms, window_secs * 1000);
        kept.skip(stale_prefix(kept, cutoff) as int)
    }
}

/// The ticks at or after the cutoff, in order.
pub open spec fn ticks_since(ticks: Seq<BtcTick>, cutoff_ms: u64) -> Seq<BtcTick> {
    ticks.filter(|t: BtcTick| t.timestamp_ms >= cutoff_ms)
}

/// Price change per second between the first and last tick of a window that ends
/// at `latest_ms`; zero where there are fewer than two or they span less than a
/// second.
pub open spec fn velocity_over(ticks: Seq<BtcTick>, window_secs: u64, latest_ms: u64) -> Double {
    let recent = ticks_since(ticks, difference(latest_ms, window_secs * 1000));
    let span = Double::from_u64(
        difference(recent.last().timestamp_ms, recent[0].timestamp_ms as int),
    ).div(Double::from_u64(1000));
    if recent.len() < 2 || span.lt(Double::one()) {
        Double::zero()
    } else {
        recent.last().price.sub(recent[0].price).div(span)
    }
}

/// The velocity grows, falls off or neither.
pub open spec fn velocity_trend_of(velocity_5s: Double, velocity_15s: Double) -> VelocityTrend {
    if velocity_5s.abs().gt(velocity_15s.abs().mul(Double::ratio(13, 10))) {
        VelocityTrend::Accelerating
    } else if velocity_5s.abs().lt(velocity_15s.abs().mul(Double::ratio(5, 10))) {
        VelocityTrend::Tapering
    } else {
        VelocityTrend::Stable
    }
}

/// The quantities traded on one side, added up from the oldest.
pub open spec fn volume_on(ticks: Seq<BtcTick>, side: TradeSide) -> Double
    decreases ticks.len(),
{
    if ticks.len() == 0 {
        Double::zero()
    } else {
        let before = volume_on(ticks.drop_last(), side);
        if ticks.last().side == side {
            before.add(ticks.last().quantity)
        } else {
            before
        }
    }
}

/// The prices added up from the oldest.
pub open spec fn price_sum(ticks: Seq<BtcTick>) -> Double
    decreases ticks.len(),
{
    if ticks.len() == 0 {
        Double::negative_zero()
    } else {
        price_sum(ticks.drop_last()).add(ticks.last().price)
    }
}

/// The squared distances of the prices from `mean`, added up from the oldest.
pub open spec fn squares_sum(ticks: Seq<BtcTick>, mean: Double) -> Double
    decreases ticks.len(),
{
    if ticks.len() == 0 {
        Double::negative_zero()
    } else {
        let away = ticks.last().price.sub(mean);
        squares_sum(ticks.drop_last(), mean).add(away.mul(away))
    }
}

/// The standard deviation of the prices.
pub open spec fn volatility_of(ticks: Seq<BtcTick>) -> Double {
    let n = Double::from_u64(ticks.len() as u64);
    squares_sum(ticks, price_sum(ticks).div(n)).div(n).sqrt()
}

/// Bullish or bearish where velocity passes five cents a second and volume agrees.
pub open spec fn microtrend_of(price_velocity: Double, volume_delta: Double) -> MicroTrend {
    let threshold = Double::ratio(5, 100);
    if price_velocity.gt(threshold) && volume_delta.gt(Double::zero()) {
        MicroTrend::Bullish
    } else if price_velocity.lt(threshold.neg()) && volume_delta.lt(Double::zero()) {
        MicroTrend::Bearish
    } else {
        MicroTrend::Choppy
    }
}

impl Default for BtcState {
    fn default() -> (r: Self)
        ensures
            r.is_initial(),
    {
        BtcState {
            price: Double::zero(),
            price_velocity: Double::zero(),
            velocity_5s: Double::zero(),
            velocity_15s: Double::zero(),
            velocity_trend: VelocityTrend::Stable,
            volume_delta: Double::zero(),
            volatility: Double::zero(),
            microtrend: MicroTrend::Choppy,
            order_flow_ratio: Double::ratio(5, 10),
            velocity_consistency: Double::ratio(5, 10),
            price_acceleration: Double::zero(),
            tick_history: VecDeque::new(),
        }
    }
}

impl Clone for BtcState {
    fn clone(&self) -> (r: Self)
        ensures
            r.same_as(self),
    {
        BtcState {
            price: self.price,
            price_velocity: self.price_velocity,
            velocity_5s: self.velocity_5s,
            velocity_15s: self.velocity_15s,
            velocity_trend: self.velocity_trend,
            volume_delta: self.volume_delta,
            volatility: self.volatility,
            microtrend: self.microtrend,
            order_flow_ratio: self.order_flow_ratio,
            velocity_consistency: self.velocity_consistency,
            price_acceleration: self.price_acceleration,
            tick_history: self.tick_history.clone(),
        }
    }
}

impl BtcState {
    /// The same prices, metrics and history.
    pub open spec fn same_as(&self, other: &BtcState) -> bool {
        &&& self.price == other.price
        &&& self.same_metrics(other)
        &&& self.same_flow(other)
        &&& self.tick_history@ =~= other.tick_history@
    }

    /// No tick has been seen yet.
    pub open spec fn is_initial(&self) -> bool {
        &&& self.price == Double::zero()
        &&& self.price_velocity == Double::zero()
        &&& self.velocity_5s == Double::zero()
        &&& self.velocity_15s == Double::zero()
        &&& self.velocity_trend == VelocityTrend::Stable
        &&& self.volume_delta == Double::zero()
        &&& self.volatility == Double::zero()
        &&& self.microtrend == MicroTrend::Choppy
        &&& self.order_flow_ratio == Double::ratio(5, 10)
        &&& self.velocity_consistency == Double::ratio(5, 10)
        &&& self.price_acceleration == Double::zero()
        &&& self.tick_history@.len() == 0
    }

    /// The metrics are those of the history.
    pub open spec fn measures(&self, w_5s: u64, w_10s: u64, w_15s: u64) -> bool {
        let ticks = self.tick_history@;
        let latest_ms = ticks.last().timestamp_ms;
        &&& self.velocity_5s == velocity_over(ticks, w_5s, latest_ms)
        &&& self.price_velocity == velocity_over(ticks, w_10s, latest_ms)
        &&& self.velocity_15s == velocity_over(ticks, w_15s, latest_ms)
        &&& self.velocity_trend == velocity_trend_of(self.velocity_5s, self.velocity_15s)
        &&& self.volume_delta == volume_on(ticks, TradeSide::Buy).sub(
            volume_on(ticks, TradeSide::Sell),
        )
        &&& self.volatility == volatility_of(ticks)
        &&& self.microtrend == microtrend_of(self.price_velocity, self.volume_delta)
    }

    /// The metrics are those of `other`.
    pub open spec fn same_metrics(&self, other: &BtcState) -> bool {
        &&& self.velocity_5s == other.velocity_5s
        &&& self.price_velocity == other.price_velocity
        &&& self.velocity_15s == other.velocity_15s
        &&& self.velocity_trend == other.velocity_trend
        &&& self.volume_delta == other.volume_delta
        &&& self.volatility == other.volatility
        &&& self.microtrend == other.microtrend
    }

    /// The fields that ticks leave alone are those of `other`.
    pub open spec fn same_flow(&self, other: &BtcState) -> bool {
        &&& self.order_flow_ratio == other.order_flow_ratio
        &&& self.velocity_consistency == other.velocity_consistency
        &&& self.price_acceleration == other.price_acceleration
    }

    /// Takes in a tick, trims the history and measures it anew.
    pub fn push_tick(
        &mut self,
        tick: BtcTick,
        max_ticks: usize,
        window_secs: u64,
        w_5s: u64,
        w_10s: u64,
        w_15s: u64,
    )
        requires
            max_ticks > 0 ==> fits_millis(window_secs) && fits_millis(w_5s) && fits_millis(w_10s)
                && fits_millis(w_15s),
        ensures
            final(self).price == tick.price,
            final(self).tick_history@ == history_after(
                old(self).tick_history@,
                tick,
                max_ticks as nat,
                window_secs,
            ),
            max_ticks > 0 ==> final(self).measures(w_5s, w_10s, w_15s),
            max_ticks == 0 ==> final(self).same_metrics(&*old(self)),
            final(self).same_flow(&*old(self)),
    {
        let ghost all = self.tick_history@.push(tick);
        self.price = tick.price;
        self.tick_history.push_back(tick);
        assert(all.skip(0) =~= all);
        let ghost mut dropped: int = 0;
        while self.tick_history.len() > max_ticks
            invariant
                0 <= dropped <= all.len(),
                self.tick_history@ == all.skip(dropped),
                dropped > 0 ==> self.tick_history@.len() >= max_ticks,
                self.price == tick.price,
                self.same_metrics(&*old(self)),
                self.same_flow(&*old(self)),
            decreases self.tick_history@.len(),
        {
            let _ = self.tick_history.pop_front();
            proof {
                dropped = dropped + 1;
                assert(self.tick_history@ =~= all.skip(dropped));
            }
        }
        let ghost kept = newest(all, max_ticks as nat);
        assert(self.tick_history@ =~= kept);
        if self.tick_history.len() > 0 {
            let last: usize = self.tick_history.len() - 1;
            let latest_ms: u64 = self.tick_history[last].timestamp_ms;
            assert(kept.last() == tick);
            let cutoff_ms: u64 = latest_ms.saturating_sub(window_secs * 1000);
            assert(kept.skip(0) =~= kept);
            let ghost mut stale: int = 0;
            while self.tick_history.len() > 0 && self.tick_history[0].timestamp_ms < cutoff_ms
                invariant
                    0 <= stale <= kept.len(),
                    stale + stale_prefix(kept.skip(stale), cutoff_ms) == stale_prefix(
                        kept,
                        cutoff_ms,
                    ),
                    self.tick_history@ == kept.skip(stale),
                    kept.len() > 0,
                    kept.last().timestamp_ms >= cutoff_ms,
                    self.price == tick.price,
                    self.same_metrics(&*old(self)),
                    self.same_flow(&*old(self)),
                decreases self.tick_history@.len(),
            {
                assert(kept.skip(stale).drop_first() =~= kept.skip(stale + 1));
                let _ = self.tick_history.pop_front();
                proof {
                    stale = stale + 1;
                    assert(self.tick_history@ =~= kept.skip(stale));
                }
            }
            assert(stale == stale_prefix(kept, cutoff_ms));
            assert(self.tick_history@.len() > 0) by {
                if stale == kept.len() {
                    assert(kept.skip(stale - 1)[0] == kept.last());
                    lemma_stale_prefix_stops(kept, cutoff_ms, (kept.len() - 1) as int);
                }
            }
        }
        self.compute_metrics(w_5s, w_10s, w_15s);
    }

    fn compute_velocity_helper(ticks: &VecDeque<BtcTick>, window_secs: u64, latest_ms: u64) -> (r:
        Double)
        requires
            fits_millis(window_secs),
        ensures
            r == velocity_over(ticks@, window_secs, latest_ms),
    {
        let cutoff_ms: u64 = latest_ms.saturating_sub(window_secs * 1000);
        let mut recent: Vec<BtcTick> = Vec::new();
        let mut i: usize = 0;
        let ghost keep = |t: BtcTick| t.timestamp_ms >= cutoff_ms;
        proof {
            reveal(Seq::filter);
        }
        while i < ticks.len()
            invariant
                i <= ticks@.len(),
                keep == (|t: BtcTick| t.timestamp_ms >= cutoff_ms),
                recent@ == ticks@.take(i as int).filter(keep),
            decreases ticks@.len() - i,
        {
            proof {
                reveal(Seq::filter);
                assert(ticks@.take(i + 1).drop_last() =~= ticks@.take(i as int));
                assert(ticks@.take(i + 1).last() == ticks@[i as int]);
            }
            if ticks[i].timestamp_ms >= cutoff_ms {
                recent.push(ticks[i]);
            }
            i = i + 1;
        }
        assert(ticks@.take(i as int) =~= ticks@);
        if recent.len() < 2 {
            return Double::zero();
        }
        let first: BtcTick = recent[0];
        let last: BtcTick = recent[recent.len() - 1];
        let duration_secs: Double = Double::from_u64(
            last.timestamp_ms.saturating_sub(first.timestamp_ms),
        ).div(Double::from_u64(1000));
        if duration_secs.lt(Double::one()) {
            return Double::zero();
        }
        last.price.sub(first.price).div(duration_secs)
    }

    fn compute_metrics(&mut self, w_5s: u64, w_10s: u64, w_15s: u64)
        requires
            old(self).tick_history@.len() > 0 ==> fits_millis(w_5s) && fits_millis(w_10s)
                && fits_millis(w_15s),
        ensures
            final(self).price == old(self).price,
            final(self).tick_history@ == old(self).tick_history@,
            old(self).tick_history@.len() > 0 ==> final(self).measures(w_5s, w_10s, w_15s),
            old(self).tick_history@.len() == 0 ==> final(self).same_metrics(&*old(self)),
            final(self).same_flow(&*old(self)),
    {
        let n: usize = self.tick_history.len();
        if n == 0 {
            return ;
        }
        let latest_ms: u64 = self.tick_history[n - 1].timestamp_ms;
        self.velocity_5s = Self::compute_velocity_helper(&self.tick_history, w_5s, latest_ms);
        self.price_velocity = Self::compute_velocity_helper(&self.tick_history, w_10s, latest_ms);
        self.velocity_15s = Self::compute_velocity_helper(&self.tick_history, w_15s, latest_ms);
        let abs_5s: Double = self.velocity_5s.abs();
        let abs_15s: Double = self.velocity_15s.abs();
        self.velocity_trend =
        if abs_5s.gt(abs_15s.mul(Double::ratio(13, 10))) {
            VelocityTrend::Accelerating
        } else if abs_5s.lt(abs_15s.mul(Double::ratio(5, 10))) {
            VelocityTrend::Tapering
        } else {
            VelocityTrend::Stable
        };
        let (buy_vol, sell_vol) = Self::volumes(&self.tick_history);
        self.volume_delta = buy_vol.sub(sell_vol);
        self.volatility = Self::deviation(&self.tick_history);
        let threshold: Double = Double::ratio(5, 100);
        self.microtrend =
        if self.price_velocity.gt(threshold) && self.volume_delta.gt(Double::zero()) {
            MicroTrend::Bullish
        } else if self.price_velocity.lt(threshold.neg()) && self.volume_delta.lt(Double::zero()) {
            MicroTrend::Bearish
        } else {
            MicroTrend::Choppy
        };
    }

    fn volumes(ticks: &VecDeque<BtcTick>) -> (r: (Double, Double))
        ensures
            r.0 == volume_on(ticks@, TradeSide::Buy),
            r.1 == volume_on(ticks@, TradeSide::Sell),
    {
        let mut bought: Double = Double::zero();
        let mut sold: Double = Double::zero();
        let mut i: usize = 0;
        while i < ticks.len()
            invariant
                i <= ticks@.len(),
                bought == volume_on(ticks@.take(i as int), TradeSide::Buy),
                sold == volume_on(ticks@.take(i as int), TradeSide::Sell),
            decreases ticks@.len() - i,
        {
            assert(ticks@.take(i + 1).drop_last() =~= ticks@.take(i as int));
            match ticks[i].side {
                TradeSide::Buy => {
                    bought = bought.add(ticks[i].quantity);
                },
                TradeSide::Sell => {
                    sold = sold.add(ticks[i].quantity);
                },
            }
            i = i + 1;
        }
        assert(ticks@.take(i as int) =~= ticks@);
        (bought, sold)
    }

    fn deviation(ticks: &VecDeque<BtcTick>) -> (r: Double)
        ensures
            r == volatility_of(ticks@),
    {
        let n: Double = Double::from_u64(ticks.len() as u64);
        let mut sum: Double = Double::negative_zero();
        let mut i: usize = 0;
        while i < ticks.len()
            invariant
                i <= ticks@.len(),
                sum == price_sum(ticks@.take(i as int)),
            decreases ticks@.len() - i,
        {
            assert(ticks@.take(i + 1).drop_last() =~= ticks@.take(i as int));
            sum = sum.add(ticks[i].price);
            i = i + 1;
        }
        assert(ticks@.take(i as int) =~= ticks@);
        let mean: Double = sum.div(n);
        let mut squares: Double = Double::negative_zero();
        let mut j: usize = 0;
        while j < ticks.len()
            invariant
                j <= ticks@.len(),
                squares == squares_sum(ticks@.take(j as int), mean),
            decreases ticks@.len() - j,
        {
            assert(ticks@.take(j + 1).drop_last() =~= ticks@.take(j as int));
            let away: Double = ticks[j].price.sub(mean);
            squares = squares.add(away.mul(away));
            j = j + 1;
        }
        assert(ticks@.take(j as int) =~= ticks@);
        squares.div(n).sqrt()
    }
}

/// A fresh tick ends the stale front.
proof fn lemma_stale_prefix_stops(ticks: Seq<BtcTick>, cutoff_ms: u64, i: int)
    requires
        0 <= i < ticks.len(),
        ticks[i].timestamp_ms >= cutoff_ms,
    ensures
        stale_prefix(ticks, cutoff_ms) <= i,
    decreases ticks.len(),
{
    if ticks[0].timestamp_ms < cutoff_ms {
        lemma_stale_prefix_stops(ticks.drop_first(), cutoff_ms, i - 1);
    }
}

/// After a tick the history ends with it, is within the count, and starts inside
/// the window.
pub proof fn law_history_is_bounded(
    ticks: Seq<BtcTick>,
    tick: BtcTick,
    max_ticks: nat,
    window_secs: u64,
)
    requires
        max_ticks > 0,
        fits_millis(window_secs),
    ensures
        ({
            let after = history_after(ticks, tick, max_ticks, window_secs);
            &&& 0 < after.len() <= max_ticks
            &&& after.last() == tick
            &&& after[0].timestamp_ms + window_secs * 1000 >= tick.timestamp_ms
        }),
{
    let kept = newest(ticks.push(tick), max_ticks);
    let cutoff = difference(tick.timestamp_ms, window_secs * 1000);
    assert(kept.last() == tick);
    lemma_stale_prefix_stops(kept, cutoff, kept.len() - 1);
    lemma_stale_prefix_ends_fresh(kept, cutoff);
}

proof fn lemma_stale_prefix_ends_fresh(ticks: Seq<BtcTick>, cutoff_ms: u64)
    ensures
        stale_prefix(ticks, cutoff_ms) < ticks.len() ==> ticks[stale_prefix(
            ticks,
            cutoff_ms,
        ) as int].timestamp_ms >= cutoff_ms,
    decreases ticks.len(),
{
    if ticks.len() > 0 && ticks[0].timestamp_ms < cutoff_ms {
        lemma_stale_prefix_ends_fresh(ticks.drop_first(), cutoff_ms);
    }
}

/// `first` and `last` are the places of the first and last tick of a window, which ends at
/// `latest_ms`; they are at least a second apart, and their prices are finite.
pub open spec fn spans_window(
    ticks: Seq<BtcTick>,
    window_secs: u64,
    latest_ms: u64,
    first: int,
    last: int,
) -> bool {
    &&& 0 <= first < last < ticks.len()
    &&& ticks[first].timestamp_ms + window_secs * 1000 >= latest_ms
    &&& ticks[last].timestamp_ms + window_secs * 1000 >= latest_ms
    &&& forall|j: int|
        0 <= j < ticks.len() && (j < first || j > last) ==> (#[trigger] ticks[j]).timestamp_ms
            + window_secs * 1000 < latest_ms
    &&& ticks[last].timestamp_ms >= ticks[first].timestamp_ms + 1000
    &&& ticks[first].price.is_finite()
    &&& ticks[last].price.is_finite()
}

/// The ticks since a time begin with the first of them, and end with the last.
proof fn lemma_ticks_since_ends(ticks: Seq<BtcTick>, cutoff_ms: u64, first: int, last: int)
    requires
        0 <= first <= last < ticks.len(),
        ticks[first].timestamp_ms >= cutoff_ms,
        ticks[last].timestamp_ms >= cutoff_ms,
        forall|j: int|
            0 <= j < ticks.len() && (j < first || j > last) ==> (#[trigger] ticks[j]).timestamp_ms
                < cutoff_ms,
    ensures
        ticks_since(ticks, cutoff_ms).len() >= (if first < last { 2int } else { 1 }),
        ticks_since(ticks, cutoff_ms)[0] == ticks[first],
        ticks_since(ticks, cutoff_ms).last() == ticks[last],
    decreases ticks.len(),
{
    reveal(Seq::filter);
    let keep = |t: BtcTick| t.timestamp_ms >= cutoff_ms;
    let front = ticks.drop_last();
    assert(ticks_since(ticks, cutoff_ms) == ticks.filter(keep));
    if last < ticks.len() - 1 {
        lemma_ticks_since_ends(front, cutoff_ms, first, last);
    } else if first < last {
        lemma_first_tick_since(front, cutoff_ms, first);
    } else {
        lemma_no_tick_since(front, cutoff_ms);
    }
}

proof fn lemma_first_tick_since(ticks: Seq<BtcTick>, cutoff_ms: u64, first: int)
    requires
        0 <= first < ticks.len(),
        ticks[first].timestamp_ms >= cutoff_ms,
        forall|j: int| 0 <= j < first ==> (#[trigger] ticks[j]).timestamp_ms < cutoff_ms,
    ensures
        ticks_since(ticks, cutoff_ms).len() >= 1,
        ticks_since(ticks, cutoff_ms)[0] == ticks[first],
    decreases ticks.len(),
{
    reveal(Seq::filter);
    if first < ticks.len() - 1 {
        lemma_first_tick_since(ticks.drop_last(), cutoff_ms, first);
    } else {
        lemma_no_tick_since(ticks.drop_last(), cutoff_ms);
    }
}

proof fn lemma_no_tick_since(ticks: Seq<BtcTick>, cutoff_ms: u64)
    requires
        forall|j: int| 0 <= j < ticks.len() ==> (#[trigger] ticks[j]).timestamp_ms < cutoff_ms,
    ensures
        ticks_since(ticks, cutoff_ms).len() == 0,
    decreases ticks.len(),
{
    reveal(Seq::filter);
    if ticks.len() > 0 {
        lemma_no_tick_since(ticks.drop_last(), cutoff_ms);
    }
}

/// The velocity of a window that is spanned is the change of its price over its seconds.
proof fn lemma_velocity_of_span(
    ticks: Seq<BtcTick>,
    window_secs: u64,
    latest_ms: u64,
    first: int,
    last: int,
)
    requires
        spans_window(ticks, window_secs, latest_ms, first, last),
    ensures
        ({
            let span = Double::from_u64(
                (ticks[last].timestamp_ms - ticks[first].timestamp_ms) as u64,
            ).div(Double::from_u64(1000));
            &&& span.is_finite()
            &&& span.value() >= one_in_units()
            &&& ticks[last].timestamp_ms == ticks[first].timestamp_ms + 1000 ==> span
                == Double::one()
            &&& velocity_over(ticks, window_secs, latest_ms) == ticks[last].price.sub(
                ticks[first].price,
            ).div(span)
        }),
{
    reveal(Double::spec_lt);
    lemma_one();
    lemma_pow2_pos(1074);
    let ms = (ticks[last].timestamp_ms - ticks[first].timestamp_ms) as u64;
    let thousand = Double::from_u64(1000);
    law_integer_is_a_number(1000);
    law_integer_is_a_number(ms);
    law_integers_keep_order(1000, ms);
    law_quotient_keeps_order(thousand, Double::from_u64(ms), thousand);
    law_self_quotient_is_one(thousand);
    law_quotient_shrinks(Double::from_u64(ms), thousand);
    lemma_ticks_since_ends(ticks, difference(latest_ms, window_secs * 1000), first, last);
}

/// The velocity over a window has the sign of its move: it is not above zero where the last
/// price is not above the first, and not below zero where it is not below. Over one second
/// it is the change itself, and a higher last price makes it no smaller.
pub proof fn law_velocity_has_the_sign_of_the_move(
    ticks: Seq<BtcTick>,
    window_secs: u64,
    latest_ms: u64,
    first: int,
    last: int,
)
    requires
        spans_window(ticks, window_secs, latest_ms, first, last),
    ensures
        ({
            let v = velocity_over(ticks, window_secs, latest_ms);
            let (from, to) = (ticks[first].price, ticks[last].price);
            &&& !v.is_nan()
            &&& to.value() <= from.value() ==> v.value() <= 0
            &&& to.value() >= from.value() ==> v.value() >= 0
            &&& ticks[last].timestamp_ms == ticks[first].timestamp_ms + 1000 ==> v == to.sub(from)
        }),
{
    lemma_velocity_of_span(ticks, window_secs, latest_ms, first, last);
    lemma_pow2_pos(1074);
    let change = ticks[last].price.sub(ticks[first].price);
    let span = Double::from_u64((ticks[last].timestamp_ms - ticks[first].timestamp_ms) as u64).div(
        Double::from_u64(1000),
    );
    law_difference_has_a_sign(ticks[last].price, ticks[first].price);
    law_quotient_keeps_sign(change, span);
    law_quotient_by_one(change);
}

/// Swapping the first and the last price of a window negates its velocity.
pub proof fn law_reversed_move_has_opposite_velocity(
    ticks: Seq<BtcTick>,
    reversed: Seq<BtcTick>,
    window_secs: u64,
    latest_ms: u64,
    first: int,
    last: int,
)
    requires
        spans_window(ticks, window_secs, latest_ms, first, last),
        reversed.len() == ticks.len(),
        forall|j: int|
            0 <= j < ticks.len() ==> (#[trigger] reversed[j]).timestamp_ms
                == ticks[j].timestamp_ms,
        reversed[first].price == ticks[last].price,
        reversed[last].price == ticks[first].price,
    ensures
        velocity_over(reversed, window_secs, latest_ms).value() == -velocity_over(
            ticks,
            window_secs,
            latest_ms,
        ).value(),
{
    lemma_pow2_pos(1074);
    assert forall|j: int| 0 <= j < reversed.len() && (j < first || j > last) implies (
    #[trigger] reversed[j]).timestamp_ms + window_secs * 1000 < latest_ms by {
        assert(ticks[j].timestamp_ms + window_secs * 1000 < latest_ms);
    }
    assert(spans_window(reversed, window_secs, latest_ms, first, last));
    lemma_velocity_of_span(ticks, window_secs, latest_ms, first, last);
    lemma_velocity_of_span(reversed, window_secs, latest_ms, first, last);
    let (from, to) = (ticks[first].price, ticks[last].price);
    let span = Double::from_u64((ticks[last].timestamp_ms - ticks[first].timestamp_ms) as u64).div(
        Double::from_u64(1000),
    );
    law_difference_has_a_sign(to, from);
    law_difference_has_a_sign(from, to);
    law_swapped_difference_is_opposite(from, to);
    law_quotients_of_opposites(from.sub(to), to.sub(from), span);
}

/// Each velocity of a state that measures its history has the sign of the move in its own
/// window: five seconds, ten or fifteen.
pub proof fn law_velocities_follow_their_windows(
    state: BtcState,
    w_5s: u64,
    w_10s: u64,
    w_15s: u64,
    window_secs: u64,
    first: int,
    last: int,
)
    requires
        state.measures(w_5s, w_10s, w_15s),
        state.tick_history@.len() > 0,
        spans_window(
            state.tick_history@,
            window_secs,
            state.tick_history@.last().timestamp_ms,
            first,
            last,
        ),
    ensures
        ({
            let from = state.tick_history@[first].price.value();
            let to = state.tick_history@[last].price.value();
            &&& window_secs == w_10s && to <= from ==> state.price_velocity.value() <= 0
            &&& window_secs == w_10s && to >= from ==> state.price_velocity.value() >= 0
            &&& window_secs == w_5s && to <= from ==> state.velocity_5s.value() <= 0
            &&& window_secs == w_5s && to >= from ==> state.velocity_5s.value() >= 0
            &&& window_secs == w_15s && to <= from ==> state.velocity_15s.value() <= 0
            &&& window_secs == w_15s && to >= from ==> state.velocity_15s.value() >= 0
        }),
{
    law_velocity_has_the_sign_of_the_move(
        state.tick_history@,
        window_secs,
        state.tick_history@.last().timestamp_ms,
        first,
        last,
    );
}

/// A window with fewer than two ticks has no velocity.
pub proof fn law_lone_tick_does_not_move(
    ticks: Seq<BtcTick>,
    window_secs: u64,
    latest_ms: u64,
    i: int,
)
    requires
        0 <= i < ticks.len(),
        fits_millis(window_secs),
        ticks[i].timestamp_ms + window_secs * 1000 >= latest_ms,
        forall|j: int|
            0 <= j < ticks.len() && j != i ==> (#[trigger] ticks[j]).timestamp_ms + window_secs
                * 1000 < latest_ms,
    ensures
        velocity_over(ticks, window_secs, latest_ms).value() == 0,
{
    assert(magnitude(0) == 0);
    lemma_lone_tick_since(ticks, difference(latest_ms, window_secs * 1000), i);
}

proof fn lemma_lone_tick_since(ticks: Seq<BtcTick>, cutoff_ms: u64, i: int)
    requires
        0 <= i < ticks.len(),
        forall|j: int|
            0 <= j < ticks.len() && j != i ==> (#[trigger] ticks[j]).timestamp_ms < cutoff_ms,
    ensures
        ticks_since(ticks, cutoff_ms).len() <= 1,
    decreases ticks.len(),
{
    reveal(Seq::filter);
    if i < ticks.len() - 1 {
        lemma_lone_tick_since(ticks.drop_last(), cutoff_ms, i);
    } else {
        lemma_no_tick_since(ticks.drop_last(), cutoff_ms);
    }
}

/// The trend is bullish exactly where the price rises by more than five cents a second and
/// more is bought than sold, bearish exactly where it falls by more than that and more is
/// sold, and choppy otherwise.
pub proof fn law_trend_needs_price_and_volume(price_velocity: Double, volume_delta: Double)
    requires
        !price_velocity.is_nan(),
        !volume_delta.is_nan(),
    ensures
        ({
            let limit = Double::ratio(5, 100).value();
            let trend = microtrend_of(price_velocity, volume_delta);
            &&& limit > 0
            &&& trend == MicroTrend::Bullish <==> price_velocity.value() > limit
                && volume_delta.value() > 0
            &&& trend == MicroTrend::Bearish <==> price_velocity.value() < -limit
                && volume_delta.value() < 0
        }),
{
    reveal(Double::spec_lt);
    reveal(Double::spec_neg);
    assert(magnitude(0) == 0);
    law_ratio_up_to_one(5, 100);
    law_ratio_is_above_zero(5, 100);
}

/// A state that measures its history is bearish only if the price falls, and bullish only if
/// it rises.
pub proof fn law_measured_trend_follows_the_price(
    state: BtcState,
    w_5s: u64,
    w_10s: u64,
    w_15s: u64,
)
    requires
        state.measures(w_5s, w_10s, w_15s),
        !state.price_velocity.is_nan(),
        !state.volume_delta.is_nan(),
    ensures
        state.microtrend == MicroTrend::Bearish ==> state.price_velocity.value() < 0
            && state.volume_delta.value() < 0,
        state.microtrend == MicroTrend::Bullish ==> state.price_velocity.value() > 0
            && state.volume_delta.value() > 0,
        state.microtrend == MicroTrend::Choppy ==> state.price_velocity.size() <= Double::ratio(
            5,
            100,
        ).size() || state.volume_delta.value() == 0 || (state.price_velocity.value() > 0) != (
        state.volume_delta.value() > 0),
{
    law_trend_needs_price_and_volume(state.price_velocity, state.volume_delta);
}

/// The velocity trend compares sizes alone: equal sizes are stable, a standstill after a move
/// tapers, a move after a standstill accelerates, and a faster move never turns one that
/// accelerates into anything else.
pub proof fn law_velocity_trend_compares_sizes(v5: Double, v15: Double, faster: Double)
    requires
        v5.is_finite(),
        v15.is_finite(),
        faster.is_finite(),
        faster.size() >= v5.size(),
    ensures
        v5.size() == 0 && v15.value() != 0 && v15.size() >= 2 ==> velocity_trend_of(v5, v15)
            == VelocityTrend::Tapering,
        v5.size() == v15.size() ==> velocity_trend_of(v5, v15) == VelocityTrend::Stable,
        v5.size() > 0 && v15.size() == 0 ==> velocity_trend_of(v5, v15)
            == VelocityTrend::Accelerating,
        velocity_trend_of(v5, v15) == VelocityTrend::Accelerating ==> velocity_trend_of(
            faster,
            v15,
        ) == VelocityTrend::Accelerating,
        velocity_trend_of(faster, v15) == VelocityTrend::Tapering ==> velocity_trend_of(v5, v15)
            != VelocityTrend::Accelerating,
        velocity_trend_of(v5.neg(), v15) == velocity_trend_of(v5, v15),
        velocity_trend_of(v5, v15.neg()) == velocity_trend_of(v5, v15),
{
    reveal(Double::spec_lt);
    reveal(Double::spec_abs);
    reveal(Double::spec_neg);
    reveal(Double::spec_mul);
    assert(magnitude(0) == 0);
    lemma_pow2_pos(1074);
    law_ratio_up_to_one(5, 10);
    law_ratio_is_above_zero(5, 10);
    law_ratio_up_to_one(10, 10);
    let one = one_in_units();
    law_nearest_exists(v15.abs().size() * Double::ratio(13, 10).size(), one);
    law_nearest_exists(v15.abs().size() * Double::ratio(5, 10).size(), one);
    if v15.size() == 0 {
        lemma_zero_over(one);
        assert(0 * Double::ratio(13, 10).size() == 0);
    }
    if v15.size() >= 2 {
        lemma_half_of_two_or_more(v15.abs());
    }
    law_ratio_is_finite(13, 10);
    lemma_one();
    law_product_grows(v15.abs(), Double::one(), Double::ratio(13, 10));
    law_product_grows(v15.abs(), Double::ratio(5, 10), Double::one());
    law_product_with_one(v15.abs());
}

/// Half of two units or more is not zero.
proof fn lemma_half_of_two_or_more(a: Double)
    requires
        a.is_finite(),
        !a.negative(),
        a.size() >= 2,
    ensures
        a.mul(Double::ratio(5, 10)).value() > 0,
        !a.mul(Double::ratio(5, 10)).is_nan(),
{
    reveal(Double::spec_mul);
    lemma_half();
    lemma_pow2_pos(1074);
    let one = one_in_units();
    let h = Double::ratio(5, 10).size();
    assert(2 * h == one);
    assert(a.size() * h >= one) by (nonlinear_arith)
        requires
            a.size() >= 2,
            2 * h == one,
    ;
    lemma_rounds_above_zero(a.size() * h, one);
    law_nearest_exists(a.size() * h, one);
}

/// Swapping who buys and who sells negates the volume delta.
pub proof fn law_swapped_sides_negate_volume(ticks: Seq<BtcTick>, swapped: Seq<BtcTick>)
    requires
        swapped.len() == ticks.len(),
        forall|j: int|
            0 <= j < ticks.len() ==> (#[trigger] swapped[j]).quantity == ticks[j].quantity
                && swapped[j].side != ticks[j].side,
    ensures
        volume_on(swapped, TradeSide::Buy) == volume_on(ticks, TradeSide::Sell),
        volume_on(swapped, TradeSide::Sell) == volume_on(ticks, TradeSide::Buy),
    decreases ticks.len(),
{
    if ticks.len() > 0 {
        let (t, s) = (ticks.drop_last(), swapped.drop_last());
        assert forall|j: int| 0 <= j < t.len() implies (#[trigger] s[j]).quantity
            == t[j].quantity && s[j].side != t[j].side by {
            assert(swapped[j].quantity == ticks[j].quantity);
        }
        law_swapped_sides_negate_volume(t, s);
        assert(swapped[ticks.len() - 1].side != ticks[ticks.len() - 1].side);
    }
}

/// Volume that is only bought makes the delta not less than zero, volume that is only sold
/// makes it not more.
pub proof fn law_one_sided_volume_has_a_sign(state: BtcState, w_5s: u64, w_10s: u64, w_15s: u64)
    requires
        state.measures(w_5s, w_10s, w_15s),
        forall|j: int|
            0 <= j < state.tick_history@.len() ==> {
                let q = (#[trigger] state.tick_history@[j]).quantity;
                q.is_finite() && q.value() >= 0
            },
        volume_on(state.tick_history@, TradeSide::Buy).is_finite(),
        volume_on(state.tick_history@, TradeSide::Sell).is_finite(),
    ensures
        (forall|j: int|
            0 <= j < state.tick_history@.len() ==> (#[trigger] state.tick_history@[j]).side
                == TradeSide::Buy) ==> state.volume_delta.value() >= 0,
        (forall|j: int|
            0 <= j < state.tick_history@.len() ==> (#[trigger] state.tick_history@[j]).side
                == TradeSide::Sell) ==> state.volume_delta.value() <= 0,
{
    let ticks = state.tick_history@;
    lemma_volume_is_not_negative(ticks, TradeSide::Buy);
    lemma_volume_is_not_negative(ticks, TradeSide::Sell);
    lemma_no_volume_on_other_side(ticks, TradeSide::Buy);
    lemma_no_volume_on_other_side(ticks, TradeSide::Sell);
    assert(magnitude(0) == 0);
    law_difference_has_a_sign(
        volume_on(ticks, TradeSide::Buy),
        volume_on(ticks, TradeSide::Sell),
    );
}

proof fn lemma_no_volume_on_other_side(ticks: Seq<BtcTick>, side: TradeSide)
    ensures
        (forall|j: int| 0 <= j < ticks.len() ==> (#[trigger] ticks[j]).side != side)
            ==> volume_on(ticks, side) == Double::zero(),
    decreases ticks.len(),
{
    if ticks.len() > 0 && forall|j: int|
        0 <= j < ticks.len() ==> (#[trigger] ticks[j]).side != side {
        let front = ticks.drop_last();
        assert forall|j: int| 0 <= j < front.len() implies (#[trigger] front[j]).side
            != side by {
            assert(ticks[j].side != side);
        }
        lemma_no_volume_on_other_side(front, side);
        assert(ticks[ticks.len() - 1].side != side);
    }
}

proof fn lemma_volume_is_not_negative(ticks: Seq<BtcTick>, side: TradeSide)
    requires
        forall|j: int|
            0 <= j < ticks.len() ==> {
                let q = (#[trigger] ticks[j]).quantity;
                q.is_finite() && q.value() >= 0
            },
    ensures
        !volume_on(ticks, side).is_nan(),
        volume_on(ticks, side).value() >= 0,
    decreases ticks.len(),
{
    assert(magnitude(0) == 0);
    if ticks.len() > 0 {
        let front = ticks.drop_last();
        assert forall|j: int| 0 <= j < front.len() implies ({
            let q = (#[trigger] front[j]).quantity;
            q.is_finite() && q.value() >= 0
        }) by {
            assert(ticks[j].quantity.is_finite());
        }
        lemma_volume_is_not_negative(front, side);
        let q = ticks[ticks.len() - 1].quantity;
        lemma_sum_is_not_negative(volume_on(front, side), q);
    }
}

/// The history after a tick is the newest part of the ticks with the new one behind them:
/// nothing is invented, left out in between or reordered, and what was dropped was beyond
/// the count or, like everything before it, out of the window.
pub proof fn law_history_keeps_the_newest(
    ticks: Seq<BtcTick>,
    tick: BtcTick,
    max_ticks: nat,
    window_secs: u64,
    i: int,
)
    requires
        max_ticks > 0,
        fits_millis(window_secs),
        0 <= i <= ticks.len(),
    ensures
        ({
            let all = ticks.push(tick);
            let after = history_after(ticks, tick, max_ticks, window_secs);
            let dropped = all.len() - after.len();
            &&& 0 <= dropped
            &&& after == all.skip(dropped)
            &&& i < dropped && i + max_ticks >= all.len() ==> all[i].timestamp_ms + window_secs
                * 1000 < tick.timestamp_ms
        }),
{
    let all = ticks.push(tick);
    let kept = newest(all, max_ticks);
    let cutoff = difference(tick.timestamp_ms, window_secs * 1000);
    let stale = stale_prefix(kept, cutoff);
    assert(kept.last() == tick);
    lemma_stale_prefix_stops(kept, cutoff, kept.len() - 1);
    let excess = all.len() - kept.len();
    assert(kept =~= all.skip(excess));
    assert(kept.skip(stale as int) =~= all.skip(excess + stale));
    if excess <= i < excess + stale {
        lemma_stale_prefix_is_stale(kept, cutoff, i - excess);
    }
}

proof fn lemma_stale_prefix_is_stale(ticks: Seq<BtcTick>, cutoff_ms: u64, i: int)
    requires
        0 <= i < stale_prefix(ticks, cutoff_ms),
    ensures
        i < ticks.len(),
        ticks[i].timestamp_ms < cutoff_ms,
    decreases ticks.len(),
{
    if i > 0 {
        lemma_stale_prefix_is_stale(ticks.drop_first(), cutoff_ms, i - 1);
    }
}

/// A Polymarket market as the feed last saw it.
#[derive(Debug)]
pub struct PolymarketState {
    pub market_id: String,
    pub question: String,
    pub yes_price: Double,
    pub no_price: Double,
    /// Best ask less best bid; zero where the book is not known.
    pub spread: Double,
    pub volume_24h: Double,
    /// Seconds until the market closes; negative once it has.
    pub time_remaining_secs: i64,
    pub last_updated_ms: u64,
}

impl Clone for PolymarketState {
    fn clone(&self) -> (r: Self)
        ensures
            r == *self,
    {
        PolymarketState {
            market_id: self.market_id.clone(),
            question: self.question.clone(),
            yes_price: self.yes_price,
            no_price: self.no_price,
            spread: self.spread,
            volume_24h: self.volume_24h,
            time_remaining_secs: self.time_remaining_secs,
            last_updated_ms: self.last_updated_ms,
        }
    }
}

#[derive(Clone, Copy, Debug, PartialEq, Eq, Structural)]
pub enum MarketPhase {
    PreOpen,
    Active,
    Final,
    Settled,
}

impl MarketPhase {
    pub open spec fn word(self) -> Seq<char> {
        match self {
            MarketPhase::PreOpen => "PreOpen"@,
            MarketPhase::Active => "Active"@,
            MarketPhase::Final => "Final"@,
            MarketPhase::Settled => "Settled"@,
        }
    }

    pub fn as_str(&self) -> (r: &'static str)
        ensures
            r@ == self.word(),
    {
        match self {
            MarketPhase::PreOpen => "PreOpen",
            MarketPhase::Active => "Active",
            MarketPhase::Final => "Final",
            MarketPhase::Settled => "Settled",
        }
    }
}

/// A five-minute BTC market.
#[derive(Debug)]
pub struct Btc5mMarket {
    pub slug: String,
    pub condition_id: String,
    /// Token of the YES shares.
    pub yes_token_id: String,
    /// Token of the NO shares.
    pub no_token_id: String,
    pub question: String,
    /// Seconds since the epoch, a multiple of 300.
    pub window_start_unix: u64,
    pub window_end_unix: u64,
    pub phase: MarketPhase,
    pub yes_price: Double,
    pub no_price: Double,
    pub spread: Double,
    pub volume_24h: Double,
    pub time_remaining_secs: i64,
    pub last_fetched_ms: u64,
    pub price_source: String,
}

impl Clone for Btc5mMarket {
    fn clone(&self) -> (r: Self)
        ensures
            r == *self,
    {
        Btc5mMarket {
            slug: self.slug.clone(),
            condition_id: self.condition_id.clone(),
            yes_token_id: self.yes_token_id.clone(),
            no_token_id: self.no_token_id.clone(),
            question: self.question.clone(),
            window_start_unix: self.window_start_unix,
            window_end_unix: self.window_end_unix,
            phase: self.phase,
            yes_price: self.yes_price,
            no_price: self.no_price,
            spread: self.spread,
            volume_24h: self.volume_24h,
            time_remaining_secs: self.time_remaining_secs,
            last_fetched_ms: self.last_fetched_ms,
            price_source: self.price_source.clone(),
        }
    }
}

/// The price that goes with `price` on the other side of the market.
pub open spec fn complement(price: Double) -> Double {
    Double::one().sub(price).max(Double::ratio(1, 100))
}

/// A price that an update may set: not below one cent, not above ninety-nine.
pub open spec fn price_in_range(price: Double) -> bool {
    !price.lt(Double::ratio(1, 100)) && !price.gt(Double::ratio(99, 100))
}

/// Sets the price of one outcome token and its complement on the other side.
/// An update out of range or for another token changes nothing; the result tells
/// whether it was applied.
pub fn apply_price_update(
    market: &mut Btc5mMarket,
    asset_id: &str,
    raw_price: Double,
    now_ms: u64,
) -> (applied: bool)
    ensures
        applied == (price_in_range(raw_price) && (asset_id@ == old(market).yes_token_id@
            || asset_id@ == old(market).no_token_id@)),
        !applied ==> *final(market) == *old(market),
        applied && asset_id@ == old(market).yes_token_id@ ==> *final(market) == (Btc5mMarket {
            yes_price: raw_price,
            no_price: complement(raw_price),
            last_fetched_ms: now_ms,
            ..*old(market)
        }),
        applied && asset_id@ != old(market).yes_token_id@ ==> *final(market) == (Btc5mMarket {
            yes_price: complement(raw_price),
            no_price: raw_price,
            last_fetched_ms: now_ms,
            ..*old(market)
        }),
{
    if raw_price.lt(Double::ratio(1, 100)) || raw_price.gt(Double::ratio(99, 100)) {
        return false;
    }
    let other: Double = Double::one().sub(raw_price).max(Double::ratio(1, 100));
    if same_text(asset_id, market.yes_token_id.as_str()) {
        market.yes_price = raw_price;
        market.no_price = other;
    } else if same_text(asset_id, market.no_token_id.as_str()) {
        market.no_price = raw_price;
        market.yes_price = other;
    } else {
        return false;
    }
    market.last_fetched_ms = now_ms;
    true
}

/// A price in range and its complement add up to exactly one, so an applied update
/// leaves a market whose two prices do.
pub proof fn law_prices_sum_to_one(price: Double)
    requires
        price_in_range(price),
        !price.is_nan(),
    ensures
        price.add(complement(price)) == Double::one(),
        complement(price).add(price) == Double::one(),
{
    reveal(Double::spec_lt);
    reveal(Double::spec_add);
    reveal(Double::spec_neg);
    lemma2_to64_rest();
    lemma_one();
    let f = FRACTION as nat;
    let cent: nat = 5764607523034235;
    let top: nat = 8917127262193582;
    lemma_ratio_is(1, 100, cent, 1015, 59);
    lemma_ratio_is(99, 100, top, 1021, 53);
    lemma_pow2_pos(1015);
    lemma_pow2_pos(1021);
    lemma_pow2_adds(53, 1021);
    lemma_pow2_adds(6, 1015);
    lemma2_to64();
    let unit = pow2(1015);
    let high = Double::ratio(99, 100);
    assert(cent * unit > 0) by (nonlinear_arith)
        requires
            cent > 0,
            unit > 0,
    ;
    assert(high.value() == top * (64 * unit));
    assert(price.value() <= high.value());
    assert(top * (64 * unit) <= one_in_units()) by (nonlinear_arith)
        requires
            one_in_units() == 9007199254740992nat * (64 * unit),
            top == 8917127262193582nat,
    ;
    law_complement_sums_to_one(price);
    // What is left of one at ninety-nine cents is itself a double above a cent.
    let rest: nat = 5764607523034240;
    lemma_magnitude_of_mantissa(1015, rest);
    let u = 1015 * f + rest;
    assert(one_in_units() - high.value() == rest * unit) by (nonlinear_arith)
        requires
            one_in_units() == 9007199254740992nat * (64 * unit),
            high.value() == 8917127262193582nat * (64 * unit),
            rest == 5764607523034240nat,
    ;
    law_rounding_keeps_doubles(u);
    let left = (one_in_units() - price.value()) as nat;
    assert(magnitude(u) * 1 <= left * 1);
    law_rounding_keeps_order(magnitude(u), 1, left, 1);
    let other = Double::one().sub(price);
    assert(rest * unit > cent * unit) by (nonlinear_arith)
        requires
            rest > cent,
            unit > 0,
    ;
    law_nearest_exists(left, 1);
    assert(other == Double::signed(false, nearest(left, 1))) by {
        assert(price.neg().value() == -price.value());
    }
    assert(other.pattern() == nearest(left, 1));
    if u < other.pattern() {
        lemma_magnitude_increases(u, other.pattern());
    }
    assert(other.value() >= rest * unit);
    assert(1015 * f + cent < 0x3ff0_0000_0000_0000);
    assert(Double::ratio(1, 100).pattern() == 1015 * f + cent);
    assert(Double::ratio(1, 100).value() == cent * unit);
    assert(!other.lt(Double::ratio(1, 100)));
}

/// The YES and NO prices add up to one, give or take five cents.
pub open spec fn sum_is_one(market: &Btc5mMarket) -> bool {
    !market.yes_price.add(market.no_price).sub(Double::one()).abs().gt(Double::ratio(5, 100))
}

/// Both prices stand at one half.
pub open spec fn stuck_at_half(market: &Btc5mMarket) -> bool {
    let half = Double::ratio(5, 10);
    let near = Double::ratio(1, 10000);
    market.yes_price.sub(half).abs().lt(near) && market.no_price.sub(half).abs().lt(near)
}

/// One of the prices is below two cents.
pub open spec fn extreme_price(market: &Btc5mMarket) -> bool {
    market.yes_price.lt(Double::ratio(2, 100)) || market.no_price.lt(Double::ratio(2, 100))
}

/// Whether the prices of a market are fit to trade on.
pub fn prices_valid_for_trading(market: &Btc5mMarket) -> (r: bool)
    ensures
        r == (sum_is_one(market) && !stuck_at_half(market) && !extreme_price(market)),
{
    let sum: Double = market.yes_price.add(market.no_price);
    if sum.sub(Double::one()).abs().gt(Double::ratio(5, 100)) {
        return false;
    }
    let half: Double = Double::ratio(5, 10);
    let near: Double = Double::ratio(1, 10000);
    if market.yes_price.sub(half).abs().lt(near) && market.no_price.sub(half).abs().lt(near) {
        return false;
    }
    !(market.yes_price.lt(Double::ratio(2, 100)) || market.no_price.lt(Double::ratio(2, 100)))
}

/// What the feeds know of their own speed and health.
#[derive(Clone, Copy, Debug)]
pub struct LatencyState {
    pub binance_ms: u64,
    pub polymarket_ms: u64,
    pub server_time_offset_ms: i64,
    pub binance_ping_ms: u64,
    pub binance_tick_rate: Double,
    pub polymarket_tick_rate: Double,
    pub binance_last_msg_ms: u64,
    pub polymarket_last_msg_ms: u64,
    pub price_rejections: u64,
    pub stale_snapshot_rejections: u64,
    pub fallback_mode: bool,
}

impl LatencyState {
    /// Nothing has been measured yet.
    pub open spec fn initial() -> LatencyState {
        LatencyState {
            binance_ms: 0,
            polymarket_ms: 0,
            server_time_offset_ms: 0,
            binance_ping_ms: 0,
            binance_tick_rate: Double::zero(),
            polymarket_tick_rate: Double::zero(),
            binance_last_msg_ms: 0,
            polymarket_last_msg_ms: 0,
            price_rejections: 0,
            stale_snapshot_rejections: 0,
            fallback_mode: false,
        }
    }
}

impl Default for LatencyState {
    fn default() -> (r: Self)
        ensures
            r == LatencyState::initial(),
    {
        LatencyState {
            binance_ms: 0,
            polymarket_ms: 0,
            server_time_offset_ms: 0,
            binance_ping_ms: 0,
            binance_tick_rate: Double::zero(),
            polymarket_tick_rate: Double::zero(),
            binance_last_msg_ms: 0,
            polymarket_last_msg_ms: 0,
            price_rejections: 0,
            stale_snapshot_rejections: 0,
            fallback_mode: false,
        }
    }
}

/// The state that all tasks share.
pub struct MarketState {
    pub btc: BtcState,
    pub btc5m_market: Option<Btc5mMarket>,
    pub next_market: Option<Btc5mMarket>,
    /// Tracked Polymarket markets, no identifier twice.
    pub polymarkets: Vec<PolymarketState>,
    pub latency: LatencyState,
    pub last_updated_ms: u64,
}

/// A market's window starts on a multiple of the length of a window and is that long.
pub open spec fn window_is_whole(m: Btc5mMarket) -> bool {
    m.window_start_unix % WINDOW_SECS == 0 && m.window_end_unix == m.window_start_unix
        + WINDOW_SECS
}

/// A market that may be there has a whole window.
pub open spec fn any_window_is_whole(m: Option<Btc5mMarket>) -> bool {
    m is Some ==> window_is_whole(m->0)
}

impl MarketState {
    /// The markets of the state have whole windows.
    pub open spec fn windows_are_whole(&self) -> bool {
        any_window_is_whole(self.btc5m_market) && any_window_is_whole(self.next_market)
    }
}

impl Default for MarketState {
    fn default() -> (r: Self)
        ensures
            r.windows_are_whole(),
            r.btc.is_initial(),
            r.btc5m_market is None,
            r.next_market is None,
            r.polymarkets@.len() == 0,
            r.latency == LatencyState::initial(),
            r.last_updated_ms == 0,
    {
        MarketState {
            btc: BtcState::default(),
            btc5m_market: None,
            next_market: None,
            polymarkets: Vec::new(),
            latency: LatencyState::default(),
            last_updated_ms: 0,
        }
    }
}

/// A price in range is one from one cent to ninety-nine, and its complement on the other side
/// falls as it rises.
pub proof fn law_complement_falls_as_price_rises(lower: Double, higher: Double)
    requires
        !lower.is_nan(),
        !higher.is_nan(),
        price_in_range(lower),
        price_in_range(higher),
        lower.value() <= higher.value(),
    ensures
        complement(higher).value() <= complement(lower).value(),
        complement(higher).value() >= Double::ratio(1, 100).value(),
        Double::ratio(1, 100).value() <= lower.value(),
        higher.value() <= Double::ratio(99, 100).value(),
{
    reveal(Double::spec_lt);
    reveal(Double::spec_neg);
    assert(magnitude(0) == 0);
    lemma_one();
    law_ratio_up_to_one(1, 100);
    law_ratio_up_to_one(99, 100);
    let one = Double::one();
    law_sum_keeps_order(higher.neg(), lower.neg(), one);
    law_sum_commutes(one, higher.neg());
    law_sum_commutes(one, lower.neg());
}

/// The rules for prices treat the two sides alike: a market and the one with its prices
/// swapped are both fit to trade on or both not.
pub proof fn law_price_rules_treat_sides_alike(market: Btc5mMarket)
    ensures
        ({
            let swapped = Btc5mMarket {
                yes_price: market.no_price,
                no_price: market.yes_price,
                ..market
            };
            &&& sum_is_one(&swapped) == sum_is_one(&market)
            &&& stuck_at_half(&swapped) == stuck_at_half(&market)
            &&& extreme_price(&swapped) == extreme_price(&market)
        }),
{
    law_sum_commutes(market.yes_price, market.no_price);
}

/// Prices of exactly one half are stuck, a price below two cents is extreme, and prices that
/// are neither and add up to one are fit to trade on.
pub proof fn law_stuck_and_extreme_prices_are_unfit(market: Btc5mMarket)
    requires
        market.yes_price.is_finite(),
        market.no_price.is_finite(),
    ensures
        market.yes_price.value() == Double::ratio(5, 10).value() && market.no_price.value()
            == Double::ratio(5, 10).value() ==> stuck_at_half(&market),
        extreme_price(&market) <==> market.yes_price.value() < Double::ratio(2, 100).value()
            || market.no_price.value() < Double::ratio(2, 100).value(),
        market.yes_price.add(market.no_price).value() == Double::one().value() ==> sum_is_one(
            &market,
        ),
{
    reveal(Double::spec_lt);
    reveal(Double::spec_abs);
    assert(magnitude(0) == 0);
    lemma_one();
    law_ratio_up_to_one(2, 100);
    law_ratio_up_to_one(5, 100);
    law_ratio_up_to_one(5, 10);
    law_ratio_up_to_one(1, 10000);
    law_ratio_is_above_zero(1, 10000);
    law_ratio_is_above_zero(5, 100);
    let half = Double::ratio(5, 10);
    lemma_half();
    law_difference_has_a_sign(market.yes_price, half);
    law_difference_has_a_sign(market.no_price, half);
    let sum = market.yes_price.add(market.no_price);
    if sum.value() == Double::one().value() {
        lemma_pow2_pos(1074);
        law_value_determines_number(sum, Double::one());
        law_difference_has_a_sign(sum, Double::one());
    }
}

/// A lone tick does not deviate.
pub proof fn law_lone_tick_does_not_deviate(tick: BtcTick)
    requires
        tick.price.is_finite(),
        tick.price.value() > 0,
    ensures
        volatility_of(seq![tick]).value() == 0,
{
    let ticks = seq![tick];
    let (p, zero, n) = (tick.price, Double::negative_zero(), Double::from_u64(1));
    lemma_sums_of_one(ticks, p);
    law_self_ratio_is_one(1);
    let sum = zero.add(p);
    assert(magnitude(0) == 0);
    lemma_added_to_zero(p);
    law_quotient_by_one(p);
    let away = p.sub(p);
    assert(away == Double::zero()) by {
        reveal(Double::spec_add);
        reveal(Double::spec_neg);
    }
    assert(away.mul(away) == Double::zero()) by {
        reveal(Double::spec_mul);
        lemma_pow2_pos(1074);
        lemma_zero_over(one_in_units());
        assert(away.size() * away.size() == 0) by (nonlinear_arith)
            requires
                away.size() == 0,
        ;
    }
    let squares = zero.add(Double::zero());
    assert(squares == Double::zero()) by {
        reveal(Double::spec_add);
    }
    law_quotient_by_one(squares);
    assert(squares.div(n) == squares);
    assert(squares.sqrt().value() == 0) by {
        reveal(Double::spec_sqrt);
    }
}

/// Two ticks that lie as far below and above a price deviate by that distance: by the root of
/// its square.
pub proof fn law_two_ticks_deviate_by_their_distance(
    low: BtcTick,
    high: BtcTick,
    middle: Double,
    away: Double,
)
    requires
        low.price.is_finite(),
        high.price.is_finite(),
        middle.is_finite(),
        away.is_finite(),
        0 < low.price.value(),
        0 < away.value(),
        low.price.value() == middle.value() - away.value(),
        high.price.value() == middle.value() + away.value(),
        middle.add(middle).is_finite(),
        away.mul(away).is_finite(),
        away.mul(away).value() > 0,
        away.mul(away).add(away.mul(away)).is_finite(),
    ensures
        volatility_of(seq![low, high]) == away.mul(away).sqrt(),
        volatility_of(seq![high, low]) == away.mul(away).sqrt(),
{
    lemma_two_ticks(low, high, middle, away);
    lemma_two_ticks(high, low, middle, away);
}

proof fn lemma_two_ticks(first: BtcTick, second: BtcTick, middle: Double, away: Double)
    requires
        first.price.is_finite(),
        second.price.is_finite(),
        middle.is_finite(),
        away.is_finite(),
        0 < first.price.value(),
        0 < second.price.value(),
        0 < away.value(),
        first.price.value() + second.price.value() == 2 * middle.value(),
        first.price.value() - middle.value() == away.value() || first.price.value()
            - middle.value() == -away.value(),
        middle.add(middle).is_finite(),
        away.mul(away).is_finite(),
        away.mul(away).value() > 0,
        away.mul(away).add(away.mul(away)).is_finite(),
    ensures
        volatility_of(seq![first, second]) == away.mul(away).sqrt(),
{
    let ticks = seq![first, second];
    let (a, b, two) = (first.price, second.price, Double::from_u64(2));
    assert(ticks.drop_last() =~= seq![first]);
    assert(magnitude(0) == 0);
    lemma_added_to_zero(a);
    lemma_sums_of_one(seq![first], middle);
    let sum = a.add(b);
    assert(price_sum(ticks) == sum);
    law_sum_of_twins_is_exact(middle);
    assert(sum == middle.add(middle)) by {
        reveal(Double::spec_add);
    }
    lemma_half_of_twins(middle, sum);
    lemma_square_of_distance(a, middle, away);
    lemma_square_of_distance(b, middle, away);
    let square = away.mul(away);
    lemma_added_to_zero(square);
    assert(squares_sum(ticks, middle) == square.add(square));
    law_sum_of_twins_is_exact(square);
    lemma_half_of_twins(square, square.add(square));
}

/// The sums over a lone tick.
proof fn lemma_sums_of_one(ticks: Seq<BtcTick>, mean: Double)
    requires
        ticks.len() == 1,
    ensures
        price_sum(ticks) == Double::negative_zero().add(ticks[0].price),
        squares_sum(ticks, mean) == Double::negative_zero().add(
            ticks[0].price.sub(mean).mul(ticks[0].price.sub(mean)),
        ),
{
    let none = ticks.drop_last();
    assert(none.len() == 0);
    assert(price_sum(none) == Double::negative_zero());
    assert(squares_sum(none, mean) == Double::negative_zero());
}

/// A number above zero added to zero is the number.
proof fn lemma_added_to_zero(a: Double)
    requires
        a.is_finite(),
        a.value() > 0,
    ensures
        Double::negative_zero().add(a) == a,
{
    assert(magnitude(0) == 0);
    law_sum_of_one_value(Double::negative_zero(), a);
    law_value_determines_number(Double::negative_zero().add(a), a);
}

/// A distance and its opposite have one square.
proof fn lemma_square_of_distance(price: Double, middle: Double, away: Double)
    requires
        price.is_finite(),
        middle.is_finite(),
        away.is_finite(),
        away.value() > 0,
        price.value() - middle.value() == away.value() || price.value() - middle.value()
            == -away.value(),
    ensures
        price.sub(middle).mul(price.sub(middle)) == away.mul(away),
{
    reveal(Double::spec_neg);
    reveal(Double::spec_mul);
    let opposite = away.neg();
    if price.value() - middle.value() == away.value() {
        law_difference_is_exact(price, middle, away);
        law_value_determines_number(price.sub(middle), away);
    } else {
        law_difference_is_exact(price, middle, opposite);
        law_value_determines_number(price.sub(middle), opposite);
    }
}

} // verus!
