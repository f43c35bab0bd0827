//! What a strategy is and what it signals.
use vstd::prelude::*;

use crate::market_data::state::MarketState;
use crate::numeric::Double;
use crate::probability::edge::{Direction, EdgeScore};
use crate::probability::estimator::ProbabilityEstimate;

verus! {

/// A strategy decides on market conditions alone whether to enter a trade; limits of
/// risk are for the risk engine.
pub trait Strategy {
    spec fn spec_name(&self) -> Seq<char>;

    spec fn enabled(&self) -> bool;

    /// What the strategy may answer.
    spec fn answers(
        &self,
        state: &MarketState,
        edge: &EdgeScore,
        estimate: &ProbabilityEstimate,
        now_ms: u64,
        signal: Option<TradeSignal>,
    ) -> bool;

    fn name(&self) -> (r: &'static str)
        ensures
            r@ == self.spec_name(),
    ;

    fn is_enabled(&self) -> (r: bool)
        ensures
            r == self.enabled(),
    ;

    /// A signal to open a position, where the strategy sees cause for one.
    fn evaluate(
        &self,
        state: &MarketState,
        edge: &EdgeScore,
        estimate: &ProbabilityEstimate,
        now_ms: u64,
    ) -> (r: Option<TradeSignal>)
        ensures
            self.answers(state, edge, estimate, now_ms, r),
    ;
}

/// What a signal rests on.
#[derive(Clone, Copy, Debug)]
pub enum SignalReason {
    Divergence {
        divergence_score: Double,
        edge_pct: Double,
        confidence: Double,
        entry_price: Double,
        price_velocity: Double,
        volume_delta: Double,
    },
    Exhaustion {
        yes_price: Double,
        no_price: Double,
        velocity_5s: Double,
        velocity_15s: Double,
    },
}

/// A signal to open a paper position.
#[derive(Debug)]
pub struct TradeSignal {
    pub strategy_name: String,
    pub market_id: String,
    pub direction: Direction,
    pub target_entry_price: Double,
    pub target_exit_price: Double,
    pub size_usd: Double,
    pub confidence: Double,
    pub edge_pct: Double,
    pub signal_reason: SignalReason,
    pub signal_at_ms: u64,
    pub profit_target_pct: Double,
    pub stop_loss_pct: Double,
    pub exit_before_final_secs: i64,
    pub price_age_ms: u64,
    pub price_source: String,
}

impl Clone for TradeSignal {
    fn clone(&self) -> (r: Self)
        ensures
            r == *self,
    {
        TradeSignal {
            strategy_name: self.strategy_name.clone(),
            market_id: self.market_id.clone(),
            direction: self.direction,
            target_entry_price: self.target_entry_price,
            target_exit_price: self.target_exit_price,
            size_usd: self.size_usd,
            confidence: self.confidence,
            edge_pct: self.edge_pct,
            signal_reason: self.signal_reason,
            signal_at_ms: self.signal_at_ms,
            profit_target_pct: self.profit_target_pct,
            stop_loss_pct: self.stop_loss_pct,
            exit_before_final_secs: self.exit_before_final_secs,
            price_age_ms: self.price_age_ms,
            price_source: self.price_source.clone(),
        }
    }
}

/// Why a paper position was closed.
#[derive(Clone, Copy, Debug, PartialEq, Eq, Structural)]
pub enum ExitReason {
    ProfitTarget,
    StopLoss,
    TimeExit,
    EdgeGone,
}

impl ExitReason {
    pub fn as_str(&self) -> (r: &'static str)
        ensures
            r@ == match *self {
                ExitReason::ProfitTarget => "ProfitTarget"@,
                ExitReason::StopLoss => "StopLoss"@,
                ExitReason::TimeExit => "TimeExit"@,
                ExitReason::EdgeGone => "EdgeGone"@,
            },
    {
        match self {
            ExitReason::ProfitTarget => "ProfitTarget",
            ExitReason::StopLoss => "StopLoss",
            ExitReason::TimeExit => "TimeExit",
            ExitReason::EdgeGone => "EdgeGone",
        }
    }
}

} // verus!
