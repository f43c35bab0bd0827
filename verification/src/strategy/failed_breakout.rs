//! A strategy that is not in use and never signals.
use vstd::prelude::*;

use crate::market_data::state::MarketState;
use crate::probability::edge::EdgeScore;
use crate::probability::estimator::ProbabilityEstimate;
use crate::strategy::traits::{Strategy, TradeSignal};

verus! {

/// The failed breakout trap, switched off.
pub struct FailedBreakoutStrategy;

impl FailedBreakoutStrategy {
    pub fn new() -> (r: Self)
        ensures
            !r.enabled(),
            r.spec_name() == "failed_breakout"@,
    {
        FailedBreakoutStrategy
    }
}

impl Strategy for FailedBreakoutStrategy {
    open spec fn spec_name(&self) -> Seq<char> {
        "failed_breakout"@
    }

    open spec fn enabled(&self) -> bool {
        false
    }

    open spec fn answers(
        &self,
        _state: &MarketState,
        _edge: &EdgeScore,
        _estimate: &ProbabilityEstimate,
        _now_ms: u64,
        signal: Option<TradeSignal>,
    ) -> bool {
        signal is None
    }

    fn name(&self) -> (r: &'static str) {
        "failed_breakout"
    }

    fn is_enabled(&self) -> (r: bool) {
        false
    }

    fn evaluate(
        &self,
        _state: &MarketState,
        _edge: &EdgeScore,
        _estimate: &ProbabilityEstimate,
        _now_ms: u64,
    ) -> (r: Option<TradeSignal>) {
        None
    }
}

} // verus!
