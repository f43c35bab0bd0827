//! Enters with BTC while the market has not followed yet.
use vstd::prelude::*;

use crate::config::DivergenceConfig;
use crate::market_data::price_validator::elapsed_ms;
use crate::market_data::state::{Btc5mMarket, BtcState, MarketState, MicroTrend};
use crate::numeric::Double;
use crate::numeric::order::{
    law_ratio_up_to_one, law_sum_commutes, law_sum_keeps_order, law_sum_with_zero, lemma_signums,
};
use crate::numeric::rounding::magnitude;
use crate::probability::edge::{Direction, EdgeScore};
use crate::probability::estimator::ProbabilityEstimate;
use crate::strategy::traits::{SignalReason, Strategy, TradeSignal};
use crate::time::{millis_of, now_millis};

verus! {

/// The strategy that trades on divergence between BTC and the market.
pub struct DivergenceStrategy {
    pub config: DivergenceConfig,
    pub default_size_usd: Double,
}

/// The price of the outcome that a trade bets on.
pub open spec fn entry_price_of(market: Btc5mMarket, direction: Direction) -> Double {
    match direction {
        Direction::Yes => market.yes_price,
        Direction::No => market.no_price,
    }
}

/// BTC moves fast enough, in a clear trend, and with its volume where that is asked for.
pub open spec fn btc_is_moving(btc: BtcState, config: DivergenceConfig) -> bool {
    &&& !btc.price_velocity.abs().lt(config.min_velocity_abs)
    &&& btc.microtrend != MicroTrend::Choppy
    &&& config.require_volume_alignment ==> btc.volume_delta.signum().equals(
        btc.price_velocity.signum(),
    )
}

impl DivergenceStrategy {
    pub fn new(config: DivergenceConfig, default_size_usd: Double) -> (r: Self)
        ensures
            r.config == config,
            r.default_size_usd == default_size_usd,
    {
        DivergenceStrategy { config, default_size_usd }
    }

    /// The strategy signals.
    pub open spec fn fires(&self, state: &MarketState, edge: &EdgeScore) -> bool {
        state.btc5m_market is Some && edge.tradeable && btc_is_moving(state.btc, self.config)
    }

    /// Evaluates at the present time.
    pub fn evaluate_now(
        &self,
        state: &MarketState,
        edge: &EdgeScore,
        estimate: &ProbabilityEstimate,
    ) -> (r: Option<TradeSignal>)
        ensures
            exists|reading: Option<(u64, u32)>|
                self.answers(state, edge, estimate, #[trigger] millis_of(reading), r),
    {
        self.evaluate(state, edge, estimate, now_millis())
    }
}

impl Strategy for DivergenceStrategy {
    open spec fn spec_name(&self) -> Seq<char> {
        "divergence"@
    }

    open spec fn enabled(&self) -> bool {
        self.config.enabled
    }

    open spec fn answers(
        &self,
        state: &MarketState,
        edge: &EdgeScore,
        estimate: &ProbabilityEstimate,
        now_ms: u64,
        signal: Option<TradeSignal>,
    ) -> bool {
        &&& signal is Some <==> self.fires(state, edge)
        &&& signal is Some ==> {
            let market = state.btc5m_market->0;
            let entry = entry_price_of(market, edge.direction);
            &&& signal->0.strategy_name@ == "divergence"@
            &&& signal->0 == (TradeSignal {
                strategy_name: signal->0.strategy_name,
                market_id: estimate.market_id,
                direction: edge.direction,
                target_entry_price: entry,
                target_exit_price: entry.add(self.config.profit_target_pct).min(
                    Double::ratio(98, 100),
                ),
                size_usd: self.default_size_usd,
                confidence: edge.confidence,
                edge_pct: edge.edge_pct,
                signal_reason: SignalReason::Divergence {
                    divergence_score: estimate.divergence_score,
                    edge_pct: edge.edge_pct,
                    confidence: edge.confidence,
                    entry_price: entry,
                    price_velocity: state.btc.price_velocity,
                    volume_delta: state.btc.volume_delta,
                },
                signal_at_ms: now_ms,
                profit_target_pct: self.config.profit_target_pct,
                stop_loss_pct: self.config.stop_loss_pct,
                exit_before_final_secs: self.config.exit_before_final_secs,
                price_age_ms: elapsed_ms(now_ms, market.last_fetched_ms),
                price_source: market.price_source,
            })
        }
    }

    fn name(&self) -> (r: &'static str) {
        "divergence"
    }

    fn is_enabled(&self) -> (r: bool) {
        self.config.enabled
    }

    fn evaluate(
        &self,
        state: &MarketState,
        edge: &EdgeScore,
        estimate: &ProbabilityEstimate,
        now_ms: u64,
    ) -> (r: Option<TradeSignal>) {
        let market: &Btc5mMarket = match &state.btc5m_market {
            Some(m) => m,
            None => return None,
        };
        if !edge.tradeable {
            return None;
        }
        if state.btc.price_velocity.abs().lt(self.config.min_velocity_abs) {
            return None;
        }
        if state.btc.microtrend == MicroTrend::Choppy {
            return None;
        }
        if self.config.require_volume_alignment && !state.btc.volume_delta.signum().equals(
            state.btc.price_velocity.signum(),
        ) {
            return None;
        }
        let entry_price: Double = match edge.direction {
            Direction::Yes => market.yes_price,
            Direction::No => market.no_price,
        };
        let target_exit_price: Double = entry_price.add(self.config.profit_target_pct).min(
            Double::ratio(98, 100),
        );
        Some(
            TradeSignal {
                strategy_name: self.name().to_owned(),
                market_id: estimate.market_id.clone(),
                direction: edge.direction,
                target_entry_price: entry_price,
                target_exit_price,
                size_usd: self.default_size_usd,
                confidence: edge.confidence,
                edge_pct: edge.edge_pct,
                signal_reason: SignalReason::Divergence {
                    divergence_score: estimate.divergence_score,
                    edge_pct: edge.edge_pct,
                    confidence: edge.confidence,
                    entry_price,
                    price_velocity: state.btc.price_velocity,
                    volume_delta: state.btc.volume_delta,
                },
                signal_at_ms: now_ms,
                profit_target_pct: self.config.profit_target_pct,
                stop_loss_pct: self.config.stop_loss_pct,
                exit_before_final_secs: self.config.exit_before_final_secs,
                price_age_ms: now_ms.saturating_sub(market.last_fetched_ms),
                price_source: market.price_source.clone(),
            },
        )
    }
}

/// A signal bets in the direction of the edge, at the price of that side, and aims above it.
/// It comes only while the edge is tradeable, BTC moves fast enough and in a trend, and, where
/// that is asked for, volume has the sign of the price.
pub proof fn law_signal_bets_on_its_side(
    strategy: DivergenceStrategy,
    state: &MarketState,
    edge: &EdgeScore,
    estimate: &ProbabilityEstimate,
    now_ms: u64,
    signal: Option<TradeSignal>,
)
    requires
        strategy.answers(state, edge, estimate, now_ms, signal),
        state.btc.price_velocity.is_finite(),
        state.btc.volume_delta.is_finite(),
        strategy.config.min_velocity_abs.is_finite(),
    ensures
        signal is Some <==> {
            &&& state.btc5m_market is Some
            &&& edge.tradeable
            &&& state.btc.price_velocity.size() >= strategy.config.min_velocity_abs.value()
            &&& state.btc.microtrend != MicroTrend::Choppy
            &&& strategy.config.require_volume_alignment ==> state.btc.volume_delta.negative()
                == state.btc.price_velocity.negative()
        },
        signal matches Some(s) ==> {
            let m = state.btc5m_market->0;
            &&& s.direction == edge.direction
            &&& edge.direction == Direction::No ==> s.target_entry_price == m.no_price
            &&& edge.direction == Direction::Yes ==> s.target_entry_price == m.yes_price
            &&& s.market_id == estimate.market_id
            &&& s.size_usd == strategy.default_size_usd
            &&& s.signal_at_ms == now_ms
            &&& s.profit_target_pct == strategy.config.profit_target_pct
            &&& s.stop_loss_pct == strategy.config.stop_loss_pct
            &&& s.exit_before_final_secs == strategy.config.exit_before_final_secs
            &&& s.confidence == edge.confidence
            &&& s.edge_pct == edge.edge_pct
        },
        signal matches Some(s) ==> s.target_entry_price.is_finite()
            && strategy.config.profit_target_pct.is_finite()
            && strategy.config.profit_target_pct.value() >= 0 && s.target_entry_price.value()
            <= Double::ratio(98, 100).value() ==> s.target_entry_price.value()
            <= s.target_exit_price.value() <= Double::ratio(98, 100).value(),
{
    reveal(Double::spec_lt);
    reveal(Double::spec_abs);
    assert(magnitude(0) == 0);
    lemma_signums(state.btc.volume_delta, state.btc.price_velocity);
    law_ratio_up_to_one(98, 100);
    if let Some(s) = signal {
        let (entry, target) = (s.target_entry_price, strategy.config.profit_target_pct);
        if entry.is_finite() && target.is_finite() && target.value() >= 0 {
            law_sum_keeps_order(Double::zero(), target, entry);
            law_sum_commutes(Double::zero(), entry);
            law_sum_commutes(target, entry);
            law_sum_with_zero(entry);
        }
    }
}

} // verus!
