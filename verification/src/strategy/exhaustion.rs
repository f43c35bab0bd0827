//! Bets on the way back when a market has run too far and BTC loses pace.
use vstd::prelude::*;

use crate::config::ExhaustionConfig;
use crate::market_data::price_validator::elapsed_ms;
use crate::market_data::state::{Btc5mMarket, MarketState};
use crate::numeric::Double;
use crate::numeric::arithmetic::one_in_units;
use crate::numeric::order::{
    law_nearest_exists, law_product_grows, law_product_with_one, law_ratio_up_to_one,
    law_sum_commutes, law_sum_keeps_order, law_sum_with_zero, lemma_one, lemma_share_is_finite,
};
use crate::numeric::rounding::magnitude;
use crate::probability::edge::{Direction, EdgeScore};
use crate::probability::estimator::ProbabilityEstimate;
use crate::strategy::divergence::entry_price_of;
use crate::strategy::traits::{SignalReason, Strategy, TradeSignal};
use crate::time::{millis_of, now_millis};

verus! {

/// The strategy that trades on exhaustion.
pub struct ExhaustionStrategy {
    pub config: ExhaustionConfig,
    pub max_spread: Double,
    pub default_size_usd: Double,
}

impl ExhaustionStrategy {
    pub fn new(config: ExhaustionConfig, max_spread: Double, default_size_usd: Double) -> (r: Self)
        ensures
            r.config == config,
            r.max_spread == max_spread,
            r.default_size_usd == default_size_usd,
    {
        ExhaustionStrategy { config, max_spread, default_size_usd }
    }

    /// The market has time left and a narrow spread, one side is past the threshold, and
    /// a velocity that was strong over fifteen seconds has fallen off over five.
    pub open spec fn fires(&self, state: &MarketState) -> bool {
        let market = state.btc5m_market->0;
        let medium = state.btc.velocity_15s.abs();
        &&& state.btc5m_market is Some
        &&& self.config.min_time_remaining_secs <= market.time_remaining_secs
            <= self.config.max_time_remaining_secs
        &&& !market.spread.gt(self.max_spread)
        &&& market.yes_price.ge(self.config.exhaustion_threshold) || market.no_price.ge(
            self.config.exhaustion_threshold,
        )
        &&& !medium.lt(Double::ratio(5, 100))
        &&& state.btc.velocity_5s.abs().lt(medium.mul(self.config.velocity_taper_ratio))
    }

    /// Evaluates at the present time.
    pub fn evaluate_now(
        &self,
        state: &MarketState,
        edge: &EdgeScore,
        estimate: &ProbabilityEstimate,
    ) -> (r: Option<TradeSignal>)
        ensures
            exists|reading: Option<(u64, u32)>|
                self.answers(state, edge, estimate, #[trigger] millis_of(reading), r),
    {
        self.evaluate(state, edge, estimate, now_millis())
    }
}

impl Strategy for ExhaustionStrategy {
    open spec fn spec_name(&self) -> Seq<char> {
        "exhaustion"@
    }

    open spec fn enabled(&self) -> bool {
        self.config.enabled
    }

    open spec fn answers(
        &self,
        state: &MarketState,
        _edge: &EdgeScore,
        _estimate: &ProbabilityEstimate,
        now_ms: u64,
        signal: Option<TradeSignal>,
    ) -> bool {
        &&& signal is Some <==> self.fires(state)
        &&& signal is Some ==> {
            let market = state.btc5m_market->0;
            let direction = if market.yes_price.ge(self.config.exhaustion_threshold) {
                Direction::No
            } else {
                Direction::Yes
            };
            let entry = entry_price_of(market, direction);
            &&& signal->0.strategy_name@ == "exhaustion"@
            &&& signal->0 == (TradeSignal {
                strategy_name: signal->0.strategy_name,
                market_id: market.slug,
                direction,
                target_entry_price: entry,
                target_exit_price: entry.add(self.config.profit_target_pct).min(
                    Double::ratio(98, 100),
                ),
                size_usd: self.default_size_usd.mul(self.config.size_multiplier),
                confidence: Double::ratio(50, 100),
                edge_pct: self.config.profit_target_pct,
                signal_reason: SignalReason::Exhaustion {
                    yes_price: market.yes_price,
                    no_price: market.no_price,
                    velocity_5s: state.btc.velocity_5s,
                    velocity_15s: state.btc.velocity_15s,
                },
                signal_at_ms: now_ms,
                profit_target_pct: self.config.profit_target_pct,
                stop_loss_pct: self.config.stop_loss_pct,
                exit_before_final_secs: 30,
                price_age_ms: elapsed_ms(now_ms, market.last_fetched_ms),
                price_source: market.price_source,
            })
        }
    }

    fn name(&self) -> (r: &'static str) {
        "exhaustion"
    }

    fn is_enabled(&self) -> (r: bool) {
        self.config.enabled
    }

    fn evaluate(
        &self,
        state: &MarketState,
        _edge: &EdgeScore,
        _estimate: &ProbabilityEstimate,
        now_ms: u64,
    ) -> (r: Option<TradeSignal>) {
        let market: &Btc5mMarket = match &state.btc5m_market {
            Some(m) => m,
            None => return None,
        };
        let time_remaining: i64 = market.time_remaining_secs;
        if time_remaining < self.config.min_time_remaining_secs || time_remaining
            > self.config.max_time_remaining_secs {
            return None;
        }
        if market.spread.gt(self.max_spread) {
            return None;
        }
        let yes_overextended: bool = market.yes_price.ge(self.config.exhaustion_threshold);
        if !yes_overextended && !market.no_price.ge(self.config.exhaustion_threshold) {
            return None;
        }
        let recent_vel: Double = state.btc.velocity_5s.abs();
        let medium_vel: Double = state.btc.velocity_15s.abs();
        if medium_vel.lt(Double::ratio(5, 100)) {
            return None;
        }
        if !recent_vel.lt(medium_vel.mul(self.config.velocity_taper_ratio)) {
            return None;
        }
        let direction: Direction = if yes_overextended {
            Direction::No
        } else {
            Direction::Yes
        };
        let entry_price: Double = match direction {
            Direction::Yes => market.yes_price,
            Direction::No => market.no_price,
        };
        let target_exit_price: Double = entry_price.add(self.config.profit_target_pct).min(
            Double::ratio(98, 100),
        );
        Some(
            TradeSignal {
                strategy_name: self.name().to_owned(),
                market_id: market.slug.clone(),
                direction,
                target_entry_price: entry_price,
                target_exit_price,
                size_usd: self.default_size_usd.mul(self.config.size_multiplier),
                confidence: Double::ratio(50, 100),
                edge_pct: self.config.profit_target_pct,
                signal_reason: SignalReason::Exhaustion {
                    yes_price: market.yes_price,
                    no_price: market.no_price,
                    velocity_5s: state.btc.velocity_5s,
                    velocity_15s: state.btc.velocity_15s,
                },
                signal_at_ms: now_ms,
                profit_target_pct: self.config.profit_target_pct,
                stop_loss_pct: self.config.stop_loss_pct,
                exit_before_final_secs: 30,
                price_age_ms: now_ms.saturating_sub(market.last_fetched_ms),
                price_source: market.price_source.clone(),
            },
        )
    }
}

/// A signal bets against the side that has run to the threshold: on NO where the price of YES
/// has, on YES where only that of NO has, and at the price of the side that it bets on. It
/// comes only with time within both limits, a spread within its maximum, and a velocity that
/// was strong over fifteen seconds and has fallen off over five.
pub proof fn law_signal_bets_against_the_run(
    strategy: ExhaustionStrategy,
    state: &MarketState,
    edge: &EdgeScore,
    estimate: &ProbabilityEstimate,
    now_ms: u64,
    signal: Option<TradeSignal>,
)
    requires
        strategy.answers(state, edge, estimate, now_ms, signal),
        signal is Some,
        state.btc.velocity_5s.is_finite(),
        state.btc.velocity_15s.is_finite(),
        state.btc5m_market->0.yes_price.is_finite(),
        state.btc5m_market->0.no_price.is_finite(),
        state.btc5m_market->0.spread.is_finite(),
        strategy.config.exhaustion_threshold.is_finite(),
        strategy.max_spread.is_finite(),
    ensures
        ({
            let m = state.btc5m_market->0;
            let s = signal->0;
            let threshold = strategy.config.exhaustion_threshold.value();
            &&& state.btc5m_market is Some
            &&& s.direction == Direction::No <==> m.yes_price.value() >= threshold
            &&& s.direction == Direction::Yes ==> m.no_price.value() >= threshold
            &&& s.direction == Direction::No ==> s.target_entry_price == m.no_price
            &&& s.direction == Direction::Yes ==> s.target_entry_price == m.yes_price
            &&& s.market_id == m.slug
            &&& s.size_usd == strategy.default_size_usd.mul(strategy.config.size_multiplier)
            &&& s.signal_at_ms == now_ms
            &&& s.profit_target_pct == strategy.config.profit_target_pct
            &&& s.stop_loss_pct == strategy.config.stop_loss_pct
            &&& strategy.config.min_time_remaining_secs <= m.time_remaining_secs
                <= strategy.config.max_time_remaining_secs
            &&& m.spread.value() <= strategy.max_spread.value()
            &&& state.btc.velocity_15s.size() >= Double::ratio(5, 100).value()
        }),
        strategy.config.velocity_taper_ratio.in_unit_range() ==> state.btc.velocity_5s.size()
            < state.btc.velocity_15s.size(),
        strategy.config.profit_target_pct.is_finite() && strategy.config.profit_target_pct.value()
            >= 0 && signal->0.target_entry_price.value() <= Double::ratio(98, 100).value()
            ==> signal->0.target_entry_price.value() <= signal->0.target_exit_price.value()
            <= Double::ratio(98, 100).value(),
{
    reveal(Double::spec_lt);
    reveal(Double::spec_equals);
    reveal(Double::spec_abs);
    assert(magnitude(0) == 0);
    law_ratio_up_to_one(5, 100);
    let ratio = strategy.config.velocity_taper_ratio;
    let medium = state.btc.velocity_15s.abs();
    if ratio.in_unit_range() {
        lemma_one();
        lemma_share_is_finite(ratio);
        law_product_grows(medium, ratio, Double::one());
        law_product_with_one(medium);
    }
    law_ratio_up_to_one(98, 100);
    let (entry, target) = (signal->0.target_entry_price, strategy.config.profit_target_pct);
    if target.is_finite() && target.value() >= 0 {
        law_sum_keeps_order(Double::zero(), target, entry);
        law_sum_commutes(Double::zero(), entry);
        law_sum_commutes(target, entry);
        law_sum_with_zero(entry);
    }
}

/// Every exhausted run is signalled, and nothing else: there is a signal exactly where the
/// market has time within the limits and a narrow spread, a side is at the threshold, and the
/// velocity over five seconds is below its share of a strong one over fifteen.
pub proof fn law_exhausted_run_is_signalled(
    strategy: ExhaustionStrategy,
    state: &MarketState,
    edge: &EdgeScore,
    estimate: &ProbabilityEstimate,
    now_ms: u64,
    signal: Option<TradeSignal>,
)
    requires
        strategy.answers(state, edge, estimate, now_ms, signal),
        state.btc5m_market is Some,
        state.btc.velocity_5s.is_finite(),
        state.btc.velocity_15s.is_finite(),
        state.btc5m_market->0.yes_price.is_finite(),
        state.btc5m_market->0.no_price.is_finite(),
        state.btc5m_market->0.spread.is_finite(),
        strategy.config.exhaustion_threshold.is_finite(),
        strategy.config.velocity_taper_ratio.is_finite(),
        strategy.max_spread.is_finite(),
    ensures
        ({
            let m = state.btc5m_market->0;
            let threshold = strategy.config.exhaustion_threshold.value();
            signal is Some <==> {
                &&& strategy.config.min_time_remaining_secs <= m.time_remaining_secs
                    <= strategy.config.max_time_remaining_secs
                &&& m.spread.value() <= strategy.max_spread.value()
                &&& m.yes_price.value() >= threshold || m.no_price.value() >= threshold
                &&& state.btc.velocity_15s.size() >= Double::ratio(5, 100).value()
                &&& state.btc.velocity_5s.size() < state.btc.velocity_15s.abs().mul(
                    strategy.config.velocity_taper_ratio,
                ).value()
            }
        }),
        signal matches Some(s) ==> now_ms >= state.btc5m_market->0.last_fetched_ms
            ==> s.price_age_ms == now_ms - state.btc5m_market->0.last_fetched_ms,
{
    reveal(Double::spec_lt);
    reveal(Double::spec_equals);
    reveal(Double::spec_abs);
    assert(magnitude(0) == 0);
    law_ratio_up_to_one(5, 100);
    assert(!state.btc.velocity_15s.abs().mul(strategy.config.velocity_taper_ratio).is_nan()) by {
        reveal(Double::spec_mul);
        law_nearest_exists(
            state.btc.velocity_15s.size() * strategy.config.velocity_taper_ratio.size(),
            one_in_units(),
        );
    }
}

} // verus!
