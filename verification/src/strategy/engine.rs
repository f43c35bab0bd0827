//! The engine: when to evaluate, what to enter, what to leave, what to report.
use vstd::prelude::*;
use vstd::arithmetic::power2::lemma_pow2_pos;

use crate::config::{AppConfig, DivergenceConfig, RiskConfig};
use crate::events::bus::{EdgeSnapshot, MissingReason};
use crate::market_data::price_validator::elapsed_ms;
use crate::market_data::state::{
    extreme_price, prices_valid_for_trading, stuck_at_half, sum_is_one, Btc5mMarket, BtcState,
    MarketPhase, MarketState, MicroTrend,
};
use crate::numeric::Double;
use crate::numeric::order::{
    law_difference_has_a_sign, law_integer_is_a_number, law_product_grows,
    law_product_has_no_value, law_product_with_fraction, law_product_with_one,
    law_product_with_two, law_quotient_keeps_order, law_ratio_up_to_one, law_self_quotient_is_one,
    lemma_half, lemma_one, lemma_share_is_finite, lemma_signums, lemma_small_is_finite,
};
use crate::numeric::rounding::magnitude;
use crate::numeric::decimal::{parse_unsigned, unsigned_integer};
use crate::paper::simulator::{
    closing_trades, law_exits_split_positions, law_open_keeps_one_per_market,
    lemma_position_index, one_per_market, position_of, ClosedTrade, PaperPosition, PaperSimulator,
    SimulatorView,
};
use crate::probability::edge::{
    law_tradeable_edge_keeps_every_limit, limits_are_numbers, score_edge, scored, Direction,
    EdgeReason, EdgeScore,
};
use crate::probability::estimator::{
    compute_estimate_at, estimate_of, law_confidence_is_a_share, law_repricing_is_within_its_bound,
    ProbabilityEstimate, ProbabilityInput,
};
use crate::risk::engine::{RiskEngine, RiskReason, RiskResult, RiskView};
use crate::strategy::divergence::DivergenceStrategy;
use crate::strategy::session::{
    apply_entry_thresholds, thresholds_of, under_thresholds, EntryThresholds, SessionState,
    ThresholdMode,
};
use crate::strategy::traits::{Strategy, TradeSignal};
use crate::text::same_text;
use crate::time::{millis_of, now_millis};

verus! {

/// Settings that may change while the engine runs.
#[derive(Debug)]
pub struct RuntimeConfig {
    pub paused: bool,
    pub size_usd: Double,
    pub mode: String,
    pub min_edge_pct: Double,
    pub min_confidence: Double,
    pub max_spread_for_trade: Double,
    pub consecutive_loss_limit: u32,
    pub cooldown_after_loss_secs: u64,
}

/// The answer to a request for one setting.
#[derive(Debug)]
pub enum Reply {
    Failed,
    Missing,
    Value(String),
}

/// The answers to requests for all settings.
#[derive(Debug)]
pub struct PolledConfig {
    pub paused: Reply,
    pub size_usd: Reply,
    pub mode: Reply,
    pub min_edge_pct: Reply,
    pub min_confidence: Reply,
    pub max_spread_for_trade: Reply,
    pub consecutive_loss_limit: Reply,
    pub cooldown_after_loss_secs: Reply,
}

/// A value that reads as a number takes effect; any other value leaves the setting as
/// it is; without a value the fallback takes effect.
pub open spec fn polled_number(reply: Reply, current: Double, fallback: Double) -> Double {
    match reply {
        Reply::Value(s) => match Double::reading(s@) {
            Some(x) => x,
            None => current,
        },
        _ => fallback,
    }
}

/// As `polled_number`, of a value in per cent.
pub open spec fn polled_percent(reply: Reply, current: Double, fallback: Double) -> Double {
    match reply {
        Reply::Value(s) => match Double::reading(s@) {
            Some(x) => x.div(Double::from_u64(100)),
            None => current,
        },
        _ => fallback,
    }
}

/// As `polled_number`, of a size from ten cents to a hundred dollars; a value outside
/// leaves the setting as it is.
pub open spec fn polled_size(reply: Reply, current: Double, fallback: Double) -> Double {
    match reply {
        Reply::Value(s) => match Double::reading(s@) {
            Some(x) => if x.ge(Double::ratio(10, 100)) && x.le(Double::from_u64(100)) {
                x
            } else {
                current
            },
            None => current,
        },
        _ => fallback,
    }
}

/// As `polled_number`, of an unsigned integer up to a limit.
pub open spec fn polled_count(reply: Reply, max: u64, current: u64, fallback: u64) -> u64 {
    match reply {
        Reply::Value(s) => match unsigned_integer(s@, max) {
            Some(n) => n,
            None => current,
        },
        _ => fallback,
    }
}

fn take_number(reply: &Reply, current: Double, fallback: Double) -> (r: Double)
    ensures
        r == polled_number(*reply, current, fallback),
{
    match reply {
        Reply::Value(s) => match Double::parse(s.as_str()) {
            Some(x) => x,
            None => current,
        },
        _ => fallback,
    }
}

fn take_percent(reply: &Reply, current: Double, fallback: Double) -> (r: Double)
    ensures
        r == polled_percent(*reply, current, fallback),
{
    match reply {
        Reply::Value(s) => match Double::parse(s.as_str()) {
            Some(x) => x.div(Double::from_u64(100)),
            None => current,
        },
        _ => fallback,
    }
}

fn take_size(reply: &Reply, current: Double, fallback: Double) -> (r: Double)
    ensures
        r == polled_size(*reply, current, fallback),
{
    match reply {
        Reply::Value(s) => match Double::parse(s.as_str()) {
            Some(x) => if x.ge(Double::ratio(10, 100)) && x.le(Double::from_u64(100)) {
                x
            } else {
                current
            },
            None => current,
        },
        _ => fallback,
    }
}

fn take_count(reply: &Reply, max: u64, current: u64, fallback: u64) -> (r: u64)
    requires
        current <= max,
        fallback <= max,
    ensures
        r == polled_count(*reply, max, current, fallback),
        r <= max,
{
    match reply {
        Reply::Value(s) => match parse_unsigned(s.as_str(), max) {
            Some(n) => n,
            None => current,
        },
        _ => fallback,
    }
}

impl RuntimeConfig {
    /// The settings are those of the file.
    pub open spec fn is_initial(&self, config: AppConfig) -> bool {
        &&& !self.paused
        &&& self.size_usd == config.paper.default_size_usd
        &&& self.mode@ == "paper"@
        &&& self.min_edge_pct == config.strategy.divergence.min_edge_pct
        &&& self.min_confidence == config.strategy.divergence.min_confidence
        &&& self.max_spread_for_trade == config.strategy.divergence.max_spread
        &&& self.consecutive_loss_limit == config.risk.consecutive_loss_limit
        &&& self.cooldown_after_loss_secs == config.risk.cooldown_after_loss_secs
    }

    /// The settings of the file.
    pub fn initial(config: &AppConfig) -> (r: Self)
        ensures
            r.is_initial(*config),
    {
        RuntimeConfig {
            paused: false,
            size_usd: config.paper.default_size_usd,
            mode: "paper".to_owned(),
            min_edge_pct: config.strategy.divergence.min_edge_pct,
            min_confidence: config.strategy.divergence.min_confidence,
            max_spread_for_trade: config.strategy.divergence.max_spread,
            consecutive_loss_limit: config.risk.consecutive_loss_limit,
            cooldown_after_loss_secs: config.risk.cooldown_after_loss_secs,
        }
    }

    /// Other settings are these after the answers to a poll.
    pub open spec fn takes_over(
        &self,
        after: &RuntimeConfig,
        polled: PolledConfig,
        config: AppConfig,
    ) -> bool {
        &&& after.paused == match polled.paused {
            Reply::Failed => self.paused,
            Reply::Missing => false,
            Reply::Value(s) => s@ == "true"@,
        }
        &&& after.size_usd == polled_size(
            polled.size_usd,
            self.size_usd,
            config.paper.default_size_usd,
        )
        &&& after.mode@ == match polled.mode {
            Reply::Failed => self.mode@,
            Reply::Missing => "paper"@,
            Reply::Value(s) => s@,
        }
        &&& after.min_edge_pct == polled_percent(
            polled.min_edge_pct,
            self.min_edge_pct,
            config.strategy.divergence.min_edge_pct,
        )
        &&& after.min_confidence == polled_number(
            polled.min_confidence,
            self.min_confidence,
            config.strategy.divergence.min_confidence,
        )
        &&& after.max_spread_for_trade == polled_percent(
            polled.max_spread_for_trade,
            self.max_spread_for_trade,
            config.strategy.divergence.max_spread,
        )
        &&& after.consecutive_loss_limit == polled_count(
            polled.consecutive_loss_limit,
            u32::MAX as u64,
            self.consecutive_loss_limit as u64,
            config.risk.consecutive_loss_limit as u64,
        )
        &&& after.cooldown_after_loss_secs == polled_count(
            polled.cooldown_after_loss_secs,
            u64::MAX,
            self.cooldown_after_loss_secs,
            config.risk.cooldown_after_loss_secs,
        )
    }

    /// Takes over the answers to a poll. The pause and the mode stay as they are where
    /// their request failed.
    pub fn apply(&mut self, polled: &PolledConfig, config: &AppConfig)
        ensures
            old(self).takes_over(&*final(self), *polled, *config),
    {
        match &polled.paused {
            Reply::Failed => {},
            Reply::Missing => {
                self.paused = false;
            },
            Reply::Value(s) => {
                self.paused = same_text(s.as_str(), "true");
            },
        }
        self.size_usd = take_size(&polled.size_usd, self.size_usd, config.paper.default_size_usd);
        match &polled.mode {
            Reply::Failed => {},
            Reply::Missing => {
                self.mode = "paper".to_owned();
            },
            Reply::Value(s) => {
                self.mode = s.clone();
            },
        }
        self.min_edge_pct =
        take_percent(
            &polled.min_edge_pct,
            self.min_edge_pct,
            config.strategy.divergence.min_edge_pct,
        );
        self.min_confidence =
        take_number(
            &polled.min_confidence,
            self.min_confidence,
            config.strategy.divergence.min_confidence,
        );
        self.max_spread_for_trade =
        take_percent(
            &polled.max_spread_for_trade,
            self.max_spread_for_trade,
            config.strategy.divergence.max_spread,
        );
        self.consecutive_loss_limit =
        take_count(
            &polled.consecutive_loss_limit,
            u32::MAX as u64,
            self.consecutive_loss_limit as u64,
            config.risk.consecutive_loss_limit as u64,
        ) as u32;
        self.cooldown_after_loss_secs =
        take_count(
            &polled.cooldown_after_loss_secs,
            u64::MAX,
            self.cooldown_after_loss_secs,
            config.risk.cooldown_after_loss_secs,
        );
    }
}

/// One evaluation of the active market.
#[derive(Debug)]
pub struct TickSnapshot {
    pub estimate: ProbabilityEstimate,
    pub edge_score: EdgeScore,
    pub missing_reason: MissingReason,
    pub threshold_mode: ThresholdMode,
    pub thresholds: EntryThresholds,
    /// Edge and confidence, weighted by how steady and one-sided the flow is.
    pub opportunity_score: Double,
}

/// The order flow goes with the price.
pub open spec fn flow_is_aligned(btc: BtcState) -> bool {
    if btc.price_velocity.gt(Double::zero()) {
        btc.order_flow_ratio.gt(Double::ratio(58, 100))
    } else {
        btc.order_flow_ratio.lt(Double::ratio(42, 100))
    }
}

/// The price is strongly slowed down.
pub open spec fn is_decelerating(btc: BtcState) -> bool {
    !btc.price_acceleration.signum().equals(btc.price_velocity.signum())
        && btc.price_acceleration.abs().gt(Double::ratio(5, 10))
}

/// What an edge that is not tradeable is short of.
pub open spec fn shortfall(edge: EdgeScore, config: DivergenceConfig) -> MissingReason {
    match edge.reason {
        None => MissingReason::NotTradeable,
        Some(reason) => {
            let confidence = config.min_confidence.sub(edge.confidence);
            let missing = config.min_edge_pct.sub(edge.edge_pct);
            if reason is LowConfidence && confidence.gt(Double::zero()) {
                MissingReason::NeedsConfidence { needed: confidence }
            } else if reason is LowEdge && missing.gt(Double::zero()) {
                MissingReason::NeedsEdge { needed: missing }
            } else {
                MissingReason::Gate { reason }
            }
        },
    }
}

/// The first thing in the way of a trade.
pub open spec fn obstacle(
    btc: BtcState,
    market: Option<Btc5mMarket>,
    edge: EdgeScore,
    config: DivergenceConfig,
    has_position: bool,
    paused: bool,
) -> MissingReason {
    let velocity = btc.price_velocity.abs();
    if paused {
        MissingReason::Paused
    } else if has_position {
        MissingReason::HoldingPosition
    } else if market is None {
        MissingReason::NoMarket
    } else if market->0.phase != MarketPhase::Active {
        MissingReason::Phase { phase: market->0.phase }
    } else if !edge.tradeable {
        shortfall(edge, config)
    } else if velocity.lt(config.min_velocity_abs) {
        MissingReason::LowVelocity { velocity, min_velocity: config.min_velocity_abs }
    } else if btc.microtrend == MicroTrend::Choppy {
        MissingReason::Choppy
    } else if config.require_volume_alignment && !btc.volume_delta.signum().equals(
        btc.price_velocity.signum(),
    ) {
        MissingReason::VolumeNotAligned
    } else if !flow_is_aligned(btc) {
        MissingReason::FlowNotAligned { ratio: btc.order_flow_ratio }
    } else if btc.velocity_consistency.lt(config.min_velocity_consistency) {
        MissingReason::Inconsistent {
            consistency: btc.velocity_consistency,
            min_consistency: config.min_velocity_consistency,
        }
    } else if is_decelerating(btc) {
        MissingReason::Decelerating { acceleration: btc.price_acceleration }
    } else {
        MissingReason::Nothing
    }
}

fn edge_shortfall(edge: &EdgeScore, config: &DivergenceConfig) -> (r: MissingReason)
    ensures
        r == shortfall(*edge, *config),
{
    match edge.reason {
        None => MissingReason::NotTradeable,
        Some(reason) => {
            match reason {
                EdgeReason::LowConfidence { .. } => {
                    let needed: Double = config.min_confidence.sub(edge.confidence);
                    if needed.gt(Double::zero()) {
                        return MissingReason::NeedsConfidence { needed };
                    }
                },
                EdgeReason::LowEdge { .. } => {
                    let needed: Double = config.min_edge_pct.sub(edge.edge_pct);
                    if needed.gt(Double::zero()) {
                        return MissingReason::NeedsEdge { needed };
                    }
                },
                _ => {},
            }
            MissingReason::Gate { reason }
        },
    }
}

/// What keeps the engine from a trade.
pub fn get_missing_reason(
    state: &MarketState,
    edge_score: &EdgeScore,
    divergence_config: &DivergenceConfig,
    has_position: bool,
    paused: bool,
) -> (r: MissingReason)
    ensures
        r == obstacle(
            state.btc,
            state.btc5m_market,
            *edge_score,
            *divergence_config,
            has_position,
            paused,
        ),
{
    if paused {
        return MissingReason::Paused;
    }
    if has_position {
        return MissingReason::HoldingPosition;
    }
    let market: &Btc5mMarket = match &state.btc5m_market {
        Some(m) => m,
        None => return MissingReason::NoMarket,
    };
    if market.phase != MarketPhase::Active {
        return MissingReason::Phase { phase: market.phase };
    }
    if !edge_score.tradeable {
        return edge_shortfall(edge_score, divergence_config);
    }
    let btc: &BtcState = &state.btc;
    let velocity: Double = btc.price_velocity.abs();
    if velocity.lt(divergence_config.min_velocity_abs) {
        return MissingReason::LowVelocity {
            velocity,
            min_velocity: divergence_config.min_velocity_abs,
        };
    }
    if btc.microtrend == MicroTrend::Choppy {
        return MissingReason::Choppy;
    }
    if divergence_config.require_volume_alignment && !btc.volume_delta.signum().equals(
        btc.price_velocity.signum(),
    ) {
        return MissingReason::VolumeNotAligned;
    }
    let flow_aligned: bool = if btc.price_velocity.gt(Double::zero()) {
        btc.order_flow_ratio.gt(Double::ratio(58, 100))
    } else {
        btc.order_flow_ratio.lt(Double::ratio(42, 100))
    };
    if !flow_aligned {
        return MissingReason::FlowNotAligned { ratio: btc.order_flow_ratio };
    }
    if btc.velocity_consistency.lt(divergence_config.min_velocity_consistency) {
        return MissingReason::Inconsistent {
            consistency: btc.velocity_consistency,
            min_consistency: divergence_config.min_velocity_consistency,
        };
    }
    if !btc.price_acceleration.signum().equals(btc.price_velocity.signum())
        && btc.price_acceleration.abs().gt(Double::ratio(5, 10)) {
        return MissingReason::Decelerating { acceleration: btc.price_acceleration };
    }
    MissingReason::Nothing
}

/// The direction in which BTC moves.
pub open spec fn direction_of(price_velocity: Double) -> Direction {
    if price_velocity.gt(Double::zero()) {
        Direction::Yes
    } else {
        Direction::No
    }
}

/// Edge and confidence, weighted by how steady and one-sided the flow is.
pub open spec fn opportunity_of(
    edge: Double,
    confidence: Double,
    consistency: Double,
    flow: Double,
) -> Double {
    edge.mul(confidence).mul(consistency).mul(flow.sub(Double::ratio(5, 10)).abs()).mul(
        Double::from_u64(2),
    )
}

/// The evaluation of a market under settings at a time.
pub open spec fn snapshot_of(
    btc: BtcState,
    market: Btc5mMarket,
    active: DivergenceConfig,
    mode: ThresholdMode,
    thresholds: EntryThresholds,
    has_position: bool,
    paused: bool,
    now_ms: u64,
) -> TickSnapshot {
    let input = ProbabilityInput {
        market_id: market.slug,
        current_yes_price: market.yes_price,
        current_no_price: market.no_price,
        btc_state: btc,
        time_remaining_secs: market.time_remaining_secs,
        spread: market.spread,
    };
    let estimate = estimate_of(input, active, now_ms);
    let edge_score = scored(
        estimate.expected_repricing,
        direction_of(btc.price_velocity),
        market.yes_price,
        market.spread,
        market.time_remaining_secs,
        estimate.confidence,
        active,
    );
    TickSnapshot {
        estimate,
        edge_score,
        missing_reason: obstacle(btc, Some(market), edge_score, active, has_position, paused),
        threshold_mode: mode,
        thresholds,
        opportunity_score: opportunity_of(
            edge_score.edge_pct,
            edge_score.confidence,
            btc.velocity_consistency,
            btc.order_flow_ratio,
        ),
    }
}

/// There is a BTC price and a market.
pub open spec fn has_data(state: MarketState) -> bool {
    !state.btc.price.equals(Double::zero()) && state.btc5m_market is Some
}

/// Evaluates the active market, where there is one and BTC has a price.
pub fn take_snapshot(
    state: &MarketState,
    active: &DivergenceConfig,
    mode: ThresholdMode,
    thresholds: EntryThresholds,
    has_position: bool,
    paused: bool,
    now_ms: u64,
) -> (r: Option<TickSnapshot>)
    ensures
        r is Some <==> has_data(*state),
        r is Some ==> r->0 == snapshot_of(
            state.btc,
            state.btc5m_market->0,
            *active,
            mode,
            thresholds,
            has_position,
            paused,
            now_ms,
        ),
{
    if state.btc.price.equals(Double::zero()) {
        return None;
    }
    let market: &Btc5mMarket = match &state.btc5m_market {
        Some(m) => m,
        None => return None,
    };
    let input: ProbabilityInput = ProbabilityInput {
        market_id: market.slug.clone(),
        current_yes_price: market.yes_price,
        current_no_price: market.no_price,
        btc_state: state.btc.clone(),
        time_remaining_secs: market.time_remaining_secs,
        spread: market.spread,
    };
    let estimate: ProbabilityEstimate = compute_estimate_at(&input, active, now_ms);
    let direction: Direction = if state.btc.price_velocity.gt(Double::zero()) {
        Direction::Yes
    } else {
        Direction::No
    };
    let edge_score: EdgeScore = score_edge(
        estimate.expected_repricing,
        direction,
        market.yes_price,
        market.no_price,
        market.spread,
        market.time_remaining_secs,
        estimate.confidence,
        active,
    );
    let opportunity_score: Double = edge_score.edge_pct.mul(edge_score.confidence).mul(
        state.btc.velocity_consistency,
    ).mul(state.btc.order_flow_ratio.sub(Double::ratio(5, 10)).abs()).mul(Double::from_u64(2));
    let missing_reason: MissingReason = get_missing_reason(
        state,
        &edge_score,
        active,
        has_position,
        paused,
    );
    Some(
        TickSnapshot {
            estimate,
            edge_score,
            missing_reason,
            threshold_mode: mode,
            thresholds,
            opportunity_score,
        },
    )
}

/// A bet follows BTC: on NO where the price falls, on YES where it rises.
pub proof fn law_bet_follows_btc(
    btc: BtcState,
    market: Btc5mMarket,
    active: DivergenceConfig,
    mode: ThresholdMode,
    thresholds: EntryThresholds,
    has_position: bool,
    paused: bool,
    now_ms: u64,
)
    requires
        !btc.price_velocity.is_nan(),
    ensures
        ({
            let bet = snapshot_of(
                btc,
                market,
                active,
                mode,
                thresholds,
                has_position,
                paused,
                now_ms,
            ).edge_score.direction;
            &&& btc.price_velocity.value() < 0 ==> bet == Direction::No
            &&& btc.price_velocity.value() > 0 ==> bet == Direction::Yes
        }),
{
    reveal(Double::spec_lt);
    assert(magnitude(0) == 0);
}

/// Two BTC markets that move equally fast in opposite directions get opposite bets on one
/// market.
pub proof fn law_opposite_moves_get_opposite_bets(
    one: BtcState,
    other: BtcState,
    market: Btc5mMarket,
    active: DivergenceConfig,
    mode: ThresholdMode,
    thresholds: EntryThresholds,
    has_position: bool,
    paused: bool,
    now_ms: u64,
)
    requires
        one.price_velocity.is_finite(),
        other.price_velocity.is_finite(),
        one.price_velocity.value() != 0,
        other.price_velocity.value() == -one.price_velocity.value(),
    ensures
        snapshot_of(
            one,
            market,
            active,
            mode,
            thresholds,
            has_position,
            paused,
            now_ms,
        ).edge_score.direction != snapshot_of(
            other,
            market,
            active,
            mode,
            thresholds,
            has_position,
            paused,
            now_ms,
        ).edge_score.direction,
{
    law_bet_follows_btc(one, market, active, mode, thresholds, has_position, paused, now_ms);
    law_bet_follows_btc(other, market, active, mode, thresholds, has_position, paused, now_ms);
}

/// The edge in a snapshot is the one that was estimated, and it is tradeable exactly where
/// the market's own YES price, spread and time and the estimate keep every limit.
pub proof fn law_snapshot_scores_its_market(
    btc: BtcState,
    market: Btc5mMarket,
    active: DivergenceConfig,
    mode: ThresholdMode,
    thresholds: EntryThresholds,
    has_position: bool,
    paused: bool,
    now_ms: u64,
)
    requires
        limits_are_numbers(active),
        active.max_expected_repricing.is_finite(),
        !market.yes_price.is_nan(),
        !market.spread.is_nan(),
    ensures
        ({
            let s = snapshot_of(
                btc,
                market,
                active,
                mode,
                thresholds,
                has_position,
                paused,
                now_ms,
            );
            &&& s.estimate.market_id == market.slug
            &&& s.estimate.computed_at_ms == now_ms
            &&& s.edge_score.edge_pct == s.estimate.expected_repricing
            &&& s.edge_score.confidence == s.estimate.confidence
            &&& s.edge_score.tradeable <==> {
                &&& active.market_uncertainty_min.value() <= market.yes_price.value()
                    <= active.market_uncertainty_max.value()
                &&& active.min_edge_pct.value() <= s.estimate.expected_repricing.value()
                &&& active.min_confidence.value() <= s.estimate.confidence.value()
                &&& market.spread.value() <= active.max_spread.value()
                &&& active.min_time_remaining_secs <= market.time_remaining_secs
                    <= active.max_time_remaining_secs
            }
            &&& s.threshold_mode == mode
            &&& s.thresholds == thresholds
        }),
{
    let input = ProbabilityInput {
        market_id: market.slug,
        current_yes_price: market.yes_price,
        current_no_price: market.no_price,
        btc_state: btc,
        time_remaining_secs: market.time_remaining_secs,
        spread: market.spread,
    };
    let e = estimate_of(input, active, now_ms);
    law_confidence_is_a_share(input, active, now_ms);
    law_repricing_is_within_its_bound(input, active, now_ms);
    reveal(Double::spec_lt);
    reveal(Double::spec_equals);
    law_tradeable_edge_keeps_every_limit(
        e.expected_repricing,
        direction_of(btc.price_velocity),
        market.yes_price,
        market.spread,
        market.time_remaining_secs,
        e.confidence,
        active,
    );
}

/// An estimate rests on the market's spread and time and on BTC, not on the market's prices.
pub proof fn law_estimate_rests_on_spread_and_time(
    btc: BtcState,
    one: Btc5mMarket,
    other: Btc5mMarket,
    active: DivergenceConfig,
    mode: ThresholdMode,
    thresholds: EntryThresholds,
    has_position: bool,
    paused: bool,
    now_ms: u64,
)
    requires
        one.slug == other.slug,
        one.spread == other.spread,
        one.time_remaining_secs == other.time_remaining_secs,
    ensures
        snapshot_of(
            btc,
            one,
            active,
            mode,
            thresholds,
            has_position,
            paused,
            now_ms,
        ).estimate == snapshot_of(
            btc,
            other,
            active,
            mode,
            thresholds,
            has_position,
            paused,
            now_ms,
        ).estimate,
{
}

/// The way to a trade is clear exactly where the engine runs, holds no position, the market
/// is active, the edge is tradeable, BTC moves fast enough in a trend, with its volume where
/// that is asked for, with its order flow (above 58 per cent of buys where it rises, below
/// 42 where it falls), steadily, and is not strongly slowed down.
pub proof fn law_way_is_clear_only_for_a_steady_move(
    btc: BtcState,
    market: Option<Btc5mMarket>,
    edge: EdgeScore,
    config: DivergenceConfig,
    has_position: bool,
    paused: bool,
)
    requires
        btc.price_velocity.is_finite(),
        btc.price_velocity.value() != 0,
        btc.volume_delta.is_finite(),
        btc.order_flow_ratio.is_finite(),
        btc.velocity_consistency.is_finite(),
        btc.price_acceleration.is_finite(),
        config.min_velocity_abs.is_finite(),
        config.min_velocity_consistency.is_finite(),
    ensures
        ({
            let v = btc.price_velocity;
            let flow = btc.order_flow_ratio.value();
            let slowed = btc.price_acceleration.negative() != v.negative()
                && btc.price_acceleration.size() > Double::ratio(5, 10).size();
            obstacle(btc, market, edge, config, has_position, paused) is Nothing <==> {
                &&& !paused
                &&& !has_position
                &&& market is Some
                &&& market->0.phase == MarketPhase::Active
                &&& edge.tradeable
                &&& config.min_velocity_abs.value() <= v.size()
                &&& btc.microtrend != MicroTrend::Choppy
                &&& config.require_volume_alignment ==> btc.volume_delta.negative()
                    == v.negative()
                &&& v.value() > 0 ==> flow > Double::ratio(58, 100).value()
                &&& v.value() < 0 ==> flow < Double::ratio(42, 100).value()
                &&& config.min_velocity_consistency.value() <= btc.velocity_consistency.value()
                &&& !slowed
            }
        }),
{
    reveal(Double::spec_lt);
    reveal(Double::spec_equals);
    reveal(Double::spec_abs);
    assert(magnitude(0) == 0);
    lemma_signums(btc.volume_delta, btc.price_velocity);
    lemma_signums(btc.price_acceleration, btc.price_velocity);
    law_ratio_up_to_one(5, 10);
    law_ratio_up_to_one(58, 100);
    law_ratio_up_to_one(42, 100);
}

/// What the engine names as in the way is so.
pub proof fn law_obstacle_is_real(
    btc: BtcState,
    market: Option<Btc5mMarket>,
    edge: EdgeScore,
    config: DivergenceConfig,
    has_position: bool,
    paused: bool,
)
    requires
        btc.price_velocity.is_finite(),
        btc.price_velocity.value() != 0,
        btc.volume_delta.is_finite(),
        btc.order_flow_ratio.is_finite(),
        btc.price_acceleration.is_finite(),
        edge.confidence.is_finite(),
        edge.edge_pct.is_finite(),
        config.min_confidence.is_finite(),
        config.min_edge_pct.is_finite(),
    ensures
        ({
            let v = btc.price_velocity;
            let flow = btc.order_flow_ratio.value();
            match obstacle(btc, market, edge, config, has_position, paused) {
                MissingReason::Paused => paused,
                MissingReason::HoldingPosition => has_position && !paused,
                MissingReason::NoMarket => market is None,
                MissingReason::Phase { phase } => market is Some && phase == market->0.phase
                    && phase != MarketPhase::Active,
                MissingReason::NeedsConfidence { needed } => !edge.tradeable && needed
                    == config.min_confidence.sub(edge.confidence) && edge.confidence.value()
                    < config.min_confidence.value(),
                MissingReason::NeedsEdge { needed } => !edge.tradeable && needed
                    == config.min_edge_pct.sub(edge.edge_pct) && edge.edge_pct.value()
                    < config.min_edge_pct.value(),
                MissingReason::Gate { reason } => !edge.tradeable && edge.reason == Some(reason),
                MissingReason::NotTradeable => !edge.tradeable && edge.reason is None,
                MissingReason::LowVelocity { velocity, min_velocity } => velocity.size()
                    == v.size() && !velocity.negative() && min_velocity == config.min_velocity_abs
                    && velocity.value() < min_velocity.value(),
                MissingReason::Choppy => btc.microtrend == MicroTrend::Choppy,
                MissingReason::VolumeNotAligned => config.require_volume_alignment
                    && btc.volume_delta.negative() != v.negative(),
                MissingReason::FlowNotAligned { ratio } => ratio == btc.order_flow_ratio && if v.value()
                    > 0 {
                    flow <= Double::ratio(58, 100).value()
                } else {
                    flow >= Double::ratio(42, 100).value()
                },
                MissingReason::Inconsistent { consistency, min_consistency } => consistency
                    == btc.velocity_consistency && min_consistency
                    == config.min_velocity_consistency && consistency.value()
                    < min_consistency.value(),
                MissingReason::Decelerating { acceleration } => acceleration
                    == btc.price_acceleration && acceleration.negative() != v.negative()
                    && acceleration.size() > Double::ratio(5, 10).size(),
                MissingReason::Nothing => edge.tradeable,
            }
        }),
{
    reveal(Double::spec_lt);
    reveal(Double::spec_equals);
    reveal(Double::spec_abs);
    assert(magnitude(0) == 0);
    lemma_signums(btc.volume_delta, btc.price_velocity);
    lemma_signums(btc.price_acceleration, btc.price_velocity);
    law_ratio_up_to_one(5, 10);
    law_ratio_up_to_one(58, 100);
    law_ratio_up_to_one(42, 100);
    law_difference_has_a_sign(config.min_confidence, edge.confidence);
    law_difference_has_a_sign(config.min_edge_pct, edge.edge_pct);
}

/// What the engine names as in the way is the first thing that is: everything that is looked
/// at before it is in order.
pub proof fn law_obstacle_is_the_first(
    btc: BtcState,
    market: Option<Btc5mMarket>,
    edge: EdgeScore,
    config: DivergenceConfig,
    has_position: bool,
    paused: bool,
)
    requires
        btc.price_velocity.is_finite(),
        btc.price_velocity.value() != 0,
        btc.volume_delta.is_finite(),
        btc.order_flow_ratio.is_finite(),
        btc.velocity_consistency.is_finite(),
        config.min_velocity_abs.is_finite(),
        config.min_velocity_consistency.is_finite(),
    ensures
        ({
            let v = btc.price_velocity;
            let flow = btc.order_flow_ratio.value();
            let free = !paused && !has_position && market is Some && market->0.phase
                == MarketPhase::Active;
            let fast = free && edge.tradeable && config.min_velocity_abs.value() <= v.size();
            let clear = fast && btc.microtrend != MicroTrend::Choppy;
            let borne = clear && (config.require_volume_alignment ==> btc.volume_delta.negative()
                == v.negative());
            let flowing = borne && if v.value() > 0 {
                flow > Double::ratio(58, 100).value()
            } else {
                flow < Double::ratio(42, 100).value()
            };
            let steady = flowing && config.min_velocity_consistency.value()
                <= btc.velocity_consistency.value();
            match obstacle(btc, market, edge, config, has_position, paused) {
                MissingReason::Paused => true,
                MissingReason::HoldingPosition => !paused,
                MissingReason::NoMarket => !paused && !has_position,
                MissingReason::Phase { phase } => !paused && !has_position,
                MissingReason::NeedsConfidence { needed } => free && edge.reason is Some
                    && edge.reason->0 is LowConfidence,
                MissingReason::NeedsEdge { needed } => free && edge.reason is Some
                    && edge.reason->0 is LowEdge,
                MissingReason::Gate { reason } => free,
                MissingReason::NotTradeable => free,
                MissingReason::LowVelocity { velocity, min_velocity } => free && edge.tradeable,
                MissingReason::Choppy => fast,
                MissingReason::VolumeNotAligned => clear,
                MissingReason::FlowNotAligned { ratio } => borne,
                MissingReason::Inconsistent { consistency, min_consistency } => flowing,
                MissingReason::Decelerating { acceleration } => steady,
                MissingReason::Nothing => steady,
            }
        }),
{
    reveal(Double::spec_lt);
    reveal(Double::spec_abs);
    assert(magnitude(0) == 0);
    lemma_signums(btc.volume_delta, btc.price_velocity);
    law_ratio_up_to_one(58, 100);
    law_ratio_up_to_one(42, 100);
}

/// How far an evaluation goes.
#[derive(Clone, Copy, Debug, PartialEq, Eq, Structural)]
pub enum Gate {
    /// Nothing to evaluate.
    NoData,
    /// The price is so old that nothing is done.
    Suppressed { elapsed_ms: u64 },
    /// The price is too old to enter on.
    OldPrice { age_ms: u64, max_ms: u64 },
    InvalidPrices,
    NotActive,
    Observing,
    Open,
}

impl Gate {
    /// Open positions are looked at.
    pub open spec fn exits(self) -> bool {
        !(self is NoData) && !(self is Suppressed)
    }
}

/// How far an evaluation at a time goes.
pub open spec fn gate_of(state: MarketState, config: AppConfig, now_ms: u64) -> Gate {
    let market = state.btc5m_market->0;
    let age_ms = elapsed_ms(now_ms, market.last_fetched_ms);
    let max_ms = if state.latency.fallback_mode {
        config.data_quality.max_price_age_fallback_ms
    } else {
        config.data_quality.max_price_age_ms
    };
    if !has_data(state) {
        Gate::NoData
    } else if age_ms > config.btc5m.price_stale_threshold_ms {
        Gate::Suppressed { elapsed_ms: age_ms }
    } else if age_ms > max_ms {
        Gate::OldPrice { age_ms, max_ms }
    } else if !sum_is_one(&market) || stuck_at_half(&market) || extreme_price(&market) {
        Gate::InvalidPrices
    } else if market.phase != MarketPhase::Active {
        Gate::NotActive
    } else if config.strategy.observation_mode {
        Gate::Observing
    } else {
        Gate::Open
    }
}

fn gate(state: &MarketState, config: &AppConfig, now_ms: u64) -> (r: Gate)
    ensures
        r == gate_of(*state, *config, now_ms),
{
    if state.btc.price.equals(Double::zero()) {
        return Gate::NoData;
    }
    let market: &Btc5mMarket = match &state.btc5m_market {
        Some(m) => m,
        None => return Gate::NoData,
    };
    let age_ms: u64 = now_ms.saturating_sub(market.last_fetched_ms);
    if age_ms > config.btc5m.price_stale_threshold_ms {
        return Gate::Suppressed { elapsed_ms: age_ms };
    }
    let max_ms: u64 = if state.latency.fallback_mode {
        config.data_quality.max_price_age_fallback_ms
    } else {
        config.data_quality.max_price_age_ms
    };
    if age_ms > max_ms {
        return Gate::OldPrice { age_ms, max_ms };
    }
    if !prices_valid_for_trading(market) {
        return Gate::InvalidPrices;
    }
    if market.phase != MarketPhase::Active {
        return Gate::NotActive;
    }
    if config.strategy.observation_mode {
        return Gate::Observing;
    }
    Gate::Open
}

/// The edge that strategies see: at the floor, where that is configured, one above the
/// minimum counts as tradeable.
pub open spec fn offered_edge(snapshot: TickSnapshot, config: AppConfig) -> EdgeScore {
    if snapshot.threshold_mode == ThresholdMode::Floor && config.strategy.floor_entry_if_any_signal
        && snapshot.edge_score.edge_pct.gt(snapshot.thresholds.min_edge_pct)
        && !snapshot.edge_score.tradeable {
        EdgeScore { tradeable: true, reason: None, ..snapshot.edge_score }
    } else {
        snapshot.edge_score
    }
}

fn offer(snapshot: &TickSnapshot, config: &AppConfig) -> (r: EdgeScore)
    ensures
        r == offered_edge(*snapshot, *config),
{
    let mut edge: EdgeScore = snapshot.edge_score;
    if snapshot.threshold_mode == ThresholdMode::Floor && config.strategy.floor_entry_if_any_signal
        && edge.edge_pct.gt(snapshot.thresholds.min_edge_pct) && !edge.tradeable {
        edge.tradeable = true;
        edge.reason = None;
    }
    edge
}

/// What became of a strategy's signal.
#[derive(Clone, Copy, Debug)]
pub enum SignalOutcome {
    NoSignal,
    /// The last trade lost in the same direction.
    DirectionCooldown,
    AlreadyOpen,
    Blocked { reason: RiskReason },
    Opened,
}

/// What becomes of a signal at a time.
pub open spec fn outcome_of(
    sim: SimulatorView,
    risk: RiskView,
    signal: Option<TradeSignal>,
    now_ms: u64,
) -> SignalOutcome {
    match signal {
        None => SignalOutcome::NoSignal,
        Some(s) => {
            let last = sim.closed_trades.last();
            if sim.closed_trades.len() > 0 && last.pnl_usd.lt(Double::zero()) && last.direction
                == s.direction {
                SignalOutcome::DirectionCooldown
            } else if sim.has_position(s.market_id@) {
                SignalOutcome::AlreadyOpen
            } else {
                match risk.verdict(s.market_id@, sim, now_ms) {
                    Some(reason) => SignalOutcome::Blocked { reason },
                    None => SignalOutcome::Opened,
                }
            }
        },
    }
}

/// The position that a signal opens in a given size.
pub open spec fn sized_position(signal: TradeSignal, size_usd: Double, now_ms: u64) -> PaperPosition {
    position_of((TradeSignal { size_usd, ..signal }), now_ms)
}

/// What entering on signals, one after the other, makes of a simulator and a session.
pub open spec fn entered(
    sim: SimulatorView,
    session: SessionState,
    risk: RiskView,
    signals: Seq<Option<TradeSignal>>,
    size_usd: Double,
    now_ms: u64,
) -> (SimulatorView, SessionState)
    decreases signals.len(),
{
    if signals.len() == 0 {
        (sim, session)
    } else {
        let (s, t) = entered(sim, session, risk, signals.drop_last(), size_usd, now_ms);
        if outcome_of(s, risk, signals.last(), now_ms) is Opened {
            (
                s.with_position(sized_position(signals.last()->0, size_usd, now_ms)),
                t.after_trade(now_ms),
            )
        } else {
            (s, t)
        }
    }
}

/// What becomes of each of the signals.
pub open spec fn outcomes_of(
    sim: SimulatorView,
    session: SessionState,
    risk: RiskView,
    signals: Seq<Option<TradeSignal>>,
    size_usd: Double,
    now_ms: u64,
) -> Seq<SignalOutcome>
    decreases signals.len(),
{
    if signals.len() == 0 {
        Seq::empty()
    } else {
        let front = signals.drop_last();
        let (s, _) = entered(sim, session, risk, front, size_usd, now_ms);
        outcomes_of(sim, session, risk, front, size_usd, now_ms).push(
            outcome_of(s, risk, signals.last(), now_ms),
        )
    }
}

/// The positions that signals open.
pub open spec fn opened_by(
    sim: SimulatorView,
    session: SessionState,
    risk: RiskView,
    signals: Seq<Option<TradeSignal>>,
    size_usd: Double,
    now_ms: u64,
) -> Seq<PaperPosition>
    decreases signals.len(),
{
    if signals.len() == 0 {
        Seq::empty()
    } else {
        let front = signals.drop_last();
        let (s, _) = entered(sim, session, risk, front, size_usd, now_ms);
        let before = opened_by(sim, session, risk, front, size_usd, now_ms);
        if outcome_of(s, risk, signals.last(), now_ms) is Opened {
            before.push(sized_position(signals.last()->0, size_usd, now_ms))
        } else {
            before
        }
    }
}

/// What an evaluation did.
pub struct Evaluation {
    pub gate: Gate,
    /// The answer of each strategy.
    pub signals: Vec<Option<TradeSignal>>,
    pub outcomes: Vec<SignalOutcome>,
    pub opened: Vec<PaperPosition>,
    pub closed: Vec<ClosedTrade>,
}

/// The limits that are set at run time.
pub open spec fn with_runtime_limits(risk: RiskView, runtime: RuntimeConfig) -> RiskView {
    RiskView {
        config: RiskConfig {
            consecutive_loss_limit: runtime.consecutive_loss_limit,
            cooldown_after_loss_secs: runtime.cooldown_after_loss_secs,
            ..risk.config
        },
        ..risk
    }
}

/// Every answer is one that its strategy may give; one that is switched off gives none.
pub open spec fn answered<S: Strategy>(
    strategies: Seq<S>,
    state: &MarketState,
    edge: &EdgeScore,
    estimate: &ProbabilityEstimate,
    now_ms: u64,
    signals: Seq<Option<TradeSignal>>,
) -> bool {
    &&& signals.len() == strategies.len()
    &&& forall|i: int|
        0 <= i < signals.len() ==> {
            if (#[trigger] strategies[i]).enabled() {
                strategies[i].answers(state, edge, estimate, now_ms, signals[i])
            } else {
                signals[i] is None
            }
        }
}

/// Acts on one signal.
fn act(
    simulator: &mut PaperSimulator,
    session: &mut SessionState,
    risk: &RiskEngine,
    signal: &Option<TradeSignal>,
    size_usd: Double,
    now_ms: u64,
    opened: &mut Vec<PaperPosition>,
) -> (r: SignalOutcome)
    requires
        old(session).trades_this_session < u32::MAX,
    ensures
        r == outcome_of(old(simulator)@, risk@, *signal, now_ms),
        r is Opened ==> {
            let position = sized_position(signal->0, size_usd, now_ms);
            &&& final(simulator)@ == old(simulator)@.with_position(position)
            &&& *final(session) == old(session).after_trade(now_ms)
            &&& final(opened)@ == old(opened)@.push(position)
        },
        !(r is Opened) ==> final(simulator)@ == old(simulator)@ && *final(session) == *old(session)
            && final(opened)@ == old(opened)@,
{
    let s: &TradeSignal = match signal {
        Some(s) => s,
        None => return SignalOutcome::NoSignal,
    };
    let n: usize = simulator.closed_trades.len();
    if n > 0 {
        let last: &ClosedTrade = &simulator.closed_trades[n - 1];
        if last.pnl_usd.lt(Double::zero()) && last.direction == s.direction {
            return SignalOutcome::DirectionCooldown;
        }
    }
    let risk_result: RiskResult = risk.check_allowed_at(s.market_id.as_str(), simulator, now_ms);
    if simulator.has_position(s.market_id.as_str()) {
        return SignalOutcome::AlreadyOpen;
    }
    match risk_result.reason {
        Some(reason) => SignalOutcome::Blocked { reason },
        None => {
            let mut sized: TradeSignal = s.clone();
            sized.size_usd = size_usd;
            let position: PaperPosition = simulator.open_position_at(&sized, now_ms);
            opened.push(position);
            session.on_trade_executed_at(now_ms);
            SignalOutcome::Opened
        },
    }
}

/// What an evaluation reads and changes besides the market.
pub struct Desk {
    pub sim: SimulatorView,
    pub risk: RiskView,
    pub session: SessionState,
}

/// Times and counters leave room for an evaluation at a time that hears these signals: the
/// price is not from the future, there is room to count each signal as a trade of the
/// session and each position as a trade that closes, and every cooldown that a closing
/// trade starts fits into 64 bits.
pub open spec fn has_room(
    state: MarketState,
    signals: Seq<Option<TradeSignal>>,
    before: Desk,
    config: AppConfig,
    runtime: RuntimeConfig,
    now_ms: u64,
) -> bool {
    let limits = with_runtime_limits(before.risk, runtime);
    let (sim, _) = entered(
        before.sim,
        before.session,
        limits,
        signals,
        runtime.size_usd,
        now_ms,
    );
    has_data(state) ==> {
        &&& state.btc5m_market->0.last_fetched_ms <= now_ms
        &&& gate_of(state, config, now_ms).exits() ==> {
            &&& before.session.trades_this_session + signals.len() <= u32::MAX
            &&& sim.can_count()
            &&& limits.can_take_all(
                closing_trades(sim.positions, state.btc5m_market, now_ms, config.paper),
                now_ms,
            )
        }
    }
}

/// The signals that an evaluation hears: those that strategies may give, where entries are
/// open, and none otherwise.
pub open spec fn may_hear<S: Strategy>(
    state: &MarketState,
    strategies: Seq<S>,
    config: &AppConfig,
    snapshot: &TickSnapshot,
    now_ms: u64,
    signals: Seq<Option<TradeSignal>>,
) -> bool {
    if gate_of(*state, *config, now_ms) is Open {
        answered(
            strategies,
            state,
            &offered_edge(*snapshot, *config),
            &snapshot.estimate,
            now_ms,
            signals,
        )
    } else {
        signals.len() == 0
    }
}

/// What an evaluation does with the signals that it hears: it enters on them, behind any
/// gate that looks at positions it leaves those that are to be left and tells the risk
/// engine, and behind the others it changes nothing but, where there is data, the limits
/// set at run time.
pub open spec fn evaluation_runs(
    state: &MarketState,
    before: Desk,
    after: Desk,
    config: &AppConfig,
    runtime: &RuntimeConfig,
    now_ms: u64,
    r: Evaluation,
) -> bool {
    let limits = with_runtime_limits(before.risk, *runtime);
    let size_usd = runtime.size_usd;
    let (sim, session) = entered(
        before.sim,
        before.session,
        limits,
        r.signals@,
        size_usd,
        now_ms,
    );
    &&& r.gate == gate_of(*state, *config, now_ms)
    &&& r.outcomes@ == outcomes_of(
        before.sim,
        before.session,
        limits,
        r.signals@,
        size_usd,
        now_ms,
    )
    &&& r.opened@ == opened_by(
        before.sim,
        before.session,
        limits,
        r.signals@,
        size_usd,
        now_ms,
    )
    &&& if r.gate.exits() {
        &&& r.closed@ == closing_trades(sim.positions, state.btc5m_market, now_ms, config.paper)
        &&& after == (Desk {
            sim: sim.after_exits(state.btc5m_market, now_ms, config.paper),
            risk: limits.after_closes(r.closed@, now_ms),
            session,
        })
    } else {
        &&& r.closed@.len() == 0
        &&& after == (Desk {
            risk: if r.gate is NoData {
                before.risk
            } else {
                limits
            },
            ..before
        })
    }
}

/// What an evaluation does: behind a gate that is open it hears the strategies, and then it
/// runs on what it heard.
pub open spec fn evaluation_follows<S: Strategy>(
    state: &MarketState,
    strategies: Seq<S>,
    before: Desk,
    after: Desk,
    config: &AppConfig,
    runtime: &RuntimeConfig,
    snapshot: &TickSnapshot,
    now_ms: u64,
    r: Evaluation,
) -> bool {
    &&& may_hear(state, strategies, config, snapshot, now_ms, r.signals@)
    &&& evaluation_runs(state, before, after, config, runtime, now_ms, r)
}

/// What comes of an evaluation: where there is room for it on the signals that it heard, it
/// is done; where there is none, nothing is changed.
pub open spec fn evaluated<S: Strategy>(
    state: &MarketState,
    strategies: Seq<S>,
    before: Desk,
    after: Desk,
    config: &AppConfig,
    runtime: &RuntimeConfig,
    snapshot: &TickSnapshot,
    now_ms: u64,
    r: Option<Evaluation>,
) -> bool {
    match r {
        Some(e) => {
            &&& has_room(*state, e.signals@, before, *config, *runtime, now_ms)
            &&& evaluation_follows(
                state,
                strategies,
                before,
                after,
                config,
                runtime,
                snapshot,
                now_ms,
                e,
            )
        },
        None => {
            &&& after == before
            &&& exists|signals: Seq<Option<TradeSignal>>|
                #[trigger] may_hear(state, strategies, config, snapshot, now_ms, signals)
                    && !has_room(*state, signals, before, *config, *runtime, now_ms)
        },
    }
}

/// Asks each strategy that is switched on.
fn ask<S: Strategy>(
    state: &MarketState,
    strategies: &Vec<S>,
    edge: &EdgeScore,
    estimate: &ProbabilityEstimate,
    now_ms: u64,
) -> (signals: Vec<Option<TradeSignal>>)
    ensures
        answered(strategies@, state, edge, estimate, now_ms, signals@),
{
    let mut signals: Vec<Option<TradeSignal>> = Vec::new();
    let mut i: usize = 0;
    while i < strategies.len()
        invariant
            i <= strategies@.len(),
            signals@.len() == i,
            forall|j: int|
                0 <= j < i ==> {
                    if (#[trigger] strategies@[j]).enabled() {
                        strategies@[j].answers(state, edge, estimate, now_ms, signals@[j])
                    } else {
                        signals@[j] is None
                    }
                },
        decreases strategies@.len() - i,
    {
        let signal: Option<TradeSignal> = if strategies[i].is_enabled() {
            strategies[i].evaluate(state, edge, estimate, now_ms)
        } else {
            None
        };
        signals.push(signal);
        i = i + 1;
    }
    signals
}

/// Acts on signals, one after the other.
fn enter(
    simulator: &mut PaperSimulator,
    session: &mut SessionState,
    risk: &RiskEngine,
    signals: &Vec<Option<TradeSignal>>,
    size_usd: Double,
    now_ms: u64,
) -> (r: (Vec<SignalOutcome>, Vec<PaperPosition>))
    requires
        old(session).trades_this_session + signals@.len() <= u32::MAX,
    ensures
        (final(simulator)@, *final(session)) == entered(
            old(simulator)@,
            *old(session),
            risk@,
            signals@,
            size_usd,
            now_ms,
        ),
        r.0@ == outcomes_of(
            old(simulator)@,
            *old(session),
            risk@,
            signals@,
            size_usd,
            now_ms,
        ),
        r.1@ == opened_by(
            old(simulator)@,
            *old(session),
            risk@,
            signals@,
            size_usd,
            now_ms,
        ),
{
    let ghost start = simulator@;
    let ghost first = *session;
    let mut outcomes: Vec<SignalOutcome> = Vec::new();
    let mut opened: Vec<PaperPosition> = Vec::new();
    let mut i: usize = 0;
    assert(signals@.take(0) =~= Seq::empty());
    while i < signals.len()
        invariant
            i <= signals@.len(),
            (simulator@, *session) == entered(
                start,
                first,
                risk@,
                signals@.take(i as int),
                size_usd,
                now_ms,
            ),
            outcomes@ == outcomes_of(
                start,
                first,
                risk@,
                signals@.take(i as int),
                size_usd,
                now_ms,
            ),
            opened@ == opened_by(
                start,
                first,
                risk@,
                signals@.take(i as int),
                size_usd,
                now_ms,
            ),
            session.trades_this_session <= first.trades_this_session + i,
            first.trades_this_session + signals@.len() <= u32::MAX,
        decreases signals@.len() - i,
    {
        assert(signals@.take(i + 1).drop_last() =~= signals@.take(i as int));
        let outcome: SignalOutcome = act(
            simulator,
            session,
            risk,
            &signals[i],
            size_usd,
            now_ms,
            &mut opened,
        );
        outcomes.push(outcome);
        i = i + 1;
    }
    assert(signals@.take(i as int) =~= signals@);
    (outcomes, opened)
}

/// Signals are heard where entries are open.
pub open spec fn heard(
    state: MarketState,
    config: AppConfig,
    now_ms: u64,
    signals: Seq<Option<TradeSignal>>,
) -> Seq<Option<TradeSignal>> {
    if gate_of(state, config, now_ms) is Open {
        signals
    } else {
        Seq::empty()
    }
}

/// Runs an evaluation at a time on signals, which are heard where entries are open. Where
/// times or counters leave no room for it, nothing is changed and there is no result.
pub fn evaluate_signals_at(
    state: &MarketState,
    signals: Vec<Option<TradeSignal>>,
    simulator: &mut PaperSimulator,
    risk: &mut RiskEngine,
    session: &mut SessionState,
    config: &AppConfig,
    runtime: &RuntimeConfig,
    now_ms: u64,
) -> (r: Option<Evaluation>)
    ensures
        ({
            let used = heard(*state, *config, now_ms, signals@);
            let before = Desk { sim: old(simulator)@, risk: old(risk)@, session: *old(session) };
            let after = Desk {
                sim: final(simulator)@,
                risk: final(risk)@,
                session: *final(session),
            };
            &&& r is Some <==> has_room(*state, used, before, *config, *runtime, now_ms)
            &&& r is Some ==> r->0.signals@ == used && evaluation_runs(
                state,
                before,
                after,
                config,
                runtime,
                now_ms,
                r->0,
            )
            &&& r is None ==> after == before
        }),
{
    let ghost start = simulator@;
    let ghost before = risk@;
    let gate: Gate = gate(state, config, now_ms);
    let signals: Vec<Option<TradeSignal>> = if gate == Gate::Open {
        signals
    } else {
        Vec::new()
    };
    if gate == Gate::NoData {
        return Some(
            Evaluation {
                gate,
                signals,
                outcomes: Vec::new(),
                opened: Vec::new(),
                closed: Vec::new(),
            },
        );
    }
    if let Some(m) = &state.btc5m_market {
        if m.last_fetched_ms > now_ms {
            return None;
        }
    }
    let earlier: RiskConfig = risk.config;
    let ghost limits = with_runtime_limits(before, *runtime);
    if let Gate::Suppressed { .. } = gate {
        risk.config.consecutive_loss_limit = runtime.consecutive_loss_limit;
        risk.config.cooldown_after_loss_secs = runtime.cooldown_after_loss_secs;
        assert(risk@ == limits);
        return Some(
            Evaluation {
                gate,
                signals,
                outcomes: Vec::new(),
                opened: Vec::new(),
                closed: Vec::new(),
            },
        );
    }
    if signals.len() > (u32::MAX - session.trades_this_session) as usize {
        return None;
    }
    risk.config.consecutive_loss_limit = runtime.consecutive_loss_limit;
    risk.config.cooldown_after_loss_secs = runtime.cooldown_after_loss_secs;
    assert(risk@ == limits);
    let first: SessionState = *session;
    let held: usize = simulator.positions.len();
    let (outcomes, opened) = enter(simulator, session, risk, &signals, runtime.size_usd, now_ms);
    let due: Vec<ClosedTrade> = simulator.closes_due_at(state, config, now_ms);
    if !simulator.has_room() || !risk.has_room_for(&due, now_ms) {
        proof {
            lemma_entering_adds(start, first, limits, signals@, runtime.size_usd, now_ms);
        }
        simulator.take_back(held);
        *session = first;
        risk.config = earlier;
        assert(simulator@.positions =~= start.positions);
        assert(risk@ == before);
        return None;
    }
    let closed: Vec<ClosedTrade> = simulator.evaluate_exits_at(state, config, now_ms);
    risk.record_closes_at(&closed, now_ms);
    Some(Evaluation { gate, signals, outcomes, opened, closed })
}

/// Entering adds the positions that signals open behind those that are there, and changes
/// nothing else of a simulator.
proof fn lemma_entering_adds(
    sim: SimulatorView,
    session: SessionState,
    risk: RiskView,
    signals: Seq<Option<TradeSignal>>,
    size_usd: Double,
    now_ms: u64,
)
    ensures
        entered(sim, session, risk, signals, size_usd, now_ms).0 == (SimulatorView {
            positions: sim.positions + opened_by(sim, session, risk, signals, size_usd, now_ms),
            ..sim
        }),
    decreases signals.len(),
{
    if signals.len() > 0 {
        let front = signals.drop_last();
        lemma_entering_adds(sim, session, risk, front, size_usd, now_ms);
        let (s, _) = entered(sim, session, risk, front, size_usd, now_ms);
        if outcome_of(s, risk, signals.last(), now_ms) is Opened {
            let position = sized_position(signals.last()->0, size_usd, now_ms);
            lemma_position_index(s.positions, position.market_id@);
            let opened = opened_by(sim, session, risk, front, size_usd, now_ms);
            assert((sim.positions + opened).push(position) =~= sim.positions + opened.push(
                position,
            ));
        }
    } else {
        assert(sim.positions + Seq::<PaperPosition>::empty() =~= sim.positions);
    }
}

/// Evaluates the market at a time: enters on the signals of the strategies, where the
/// gate is open, and leaves the positions that are to be left. Where times or counters
/// leave no room for that, nothing is changed and there is no result.
pub fn evaluate_all_at<S: Strategy>(
    state: &MarketState,
    strategies: &Vec<S>,
    simulator: &mut PaperSimulator,
    risk: &mut RiskEngine,
    session: &mut SessionState,
    config: &AppConfig,
    runtime: &RuntimeConfig,
    snapshot: &TickSnapshot,
    now_ms: u64,
) -> (r: Option<Evaluation>)
    ensures
        evaluated(
            state,
            strategies@,
            (Desk { sim: old(simulator)@, risk: old(risk)@, session: *old(session) }),
            (Desk { sim: final(simulator)@, risk: final(risk)@, session: *final(session) }),
            config,
            runtime,
            snapshot,
            now_ms,
            r,
        ),
{
    let signals: Vec<Option<TradeSignal>> = if gate(state, config, now_ms) == Gate::Open {
        let edge: EdgeScore = offer(snapshot, config);
        ask(state, strategies, &edge, &snapshot.estimate, now_ms)
    } else {
        Vec::new()
    };
    assert(may_hear(state, strategies@, config, snapshot, now_ms, signals@));
    evaluate_signals_at(state, signals, simulator, risk, session, config, runtime, now_ms)
}

/// Evaluates the market now. Where times or counters leave no room for it, nothing is
/// changed and there is no result.
pub fn evaluate_all<S: Strategy>(
    state: &MarketState,
    strategies: &Vec<S>,
    simulator: &mut PaperSimulator,
    risk: &mut RiskEngine,
    session: &mut SessionState,
    config: &AppConfig,
    runtime: &RuntimeConfig,
    snapshot: &TickSnapshot,
) -> (r: Option<Evaluation>)
    ensures
        exists|reading: Option<(u64, u32)>|
            evaluated(
                state,
                strategies@,
                (Desk { sim: old(simulator)@, risk: old(risk)@, session: *old(session) }),
                (Desk { sim: final(simulator)@, risk: final(risk)@, session: *final(session) }),
                config,
                runtime,
                snapshot,
                #[trigger] millis_of(reading),
                r,
            ),
{
    evaluate_all_at(
        state,
        strategies,
        simulator,
        risk,
        session,
        config,
        runtime,
        snapshot,
        now_millis(),
    )
}

/// Entering on signals keeps one position to a market, opens none beyond the limit of
/// positions, and leaves the closed trades alone.
pub proof fn law_entering_keeps_limits(
    sim: SimulatorView,
    session: SessionState,
    risk: RiskView,
    signals: Seq<Option<TradeSignal>>,
    size_usd: Double,
    now_ms: u64,
)
    requires
        one_per_market(sim.positions),
    ensures
        ({
            let after = entered(sim, session, risk, signals, size_usd, now_ms).0;
            &&& one_per_market(after.positions)
            &&& after.closed_trades == sim.closed_trades
            &&& after.positions.len() <= sim.positions.len() || after.positions.len()
                <= risk.config.max_concurrent_positions
        }),
    decreases signals.len(),
{
    if signals.len() > 0 {
        let front = signals.drop_last();
        law_entering_keeps_limits(sim, session, risk, front, size_usd, now_ms);
        let (s, _) = entered(sim, session, risk, front, size_usd, now_ms);
        if outcome_of(s, risk, signals.last(), now_ms) is Opened {
            let position = sized_position(signals.last()->0, size_usd, now_ms);
            law_open_keeps_one_per_market(s, position);
        }
    }
}

/// After a loss no signal in the direction of the loss is acted on.
pub proof fn law_loss_blocks_its_direction(
    sim: SimulatorView,
    risk: RiskView,
    signal: TradeSignal,
    now_ms: u64,
)
    requires
        sim.closed_trades.len() > 0,
        sim.closed_trades.last().pnl_usd.lt(Double::zero()),
        sim.closed_trades.last().direction == signal.direction,
    ensures
        outcome_of(sim, risk, Some(signal), now_ms) == SignalOutcome::DirectionCooldown,
{
}

/// A market with an open position is not entered again.
pub proof fn law_no_second_position(
    sim: SimulatorView,
    risk: RiskView,
    signal: TradeSignal,
    now_ms: u64,
)
    requires
        sim.has_position(signal.market_id@),
    ensures
        !(outcome_of(sim, risk, Some(signal), now_ms) is Opened),
{
}

/// Unless entries are open no position is opened and the session stays as it is; either
/// way a market has at most one position afterwards.
pub proof fn law_evaluation_is_gated<S: Strategy>(
    state: &MarketState,
    strategies: Seq<S>,
    before: Desk,
    after: Desk,
    config: &AppConfig,
    runtime: &RuntimeConfig,
    snapshot: &TickSnapshot,
    now_ms: u64,
    r: Evaluation,
)
    requires
        evaluation_follows(
            state,
            strategies,
            before,
            after,
            config,
            runtime,
            snapshot,
            now_ms,
            r,
        ),
        one_per_market(before.sim.positions),
    ensures
        !(r.gate is Open) ==> r.opened@.len() == 0 && after.session == before.session,
        one_per_market(after.sim.positions),
        after.sim.positions.len() <= before.sim.positions.len() || after.sim.positions.len()
            <= before.risk.config.max_concurrent_positions,
{
    let limits = with_runtime_limits(before.risk, *runtime);
    let size_usd = runtime.size_usd;
    law_entering_keeps_limits(before.sim, before.session, limits, r.signals@, size_usd, now_ms);
    let (sim, _) = entered(before.sim, before.session, limits, r.signals@, size_usd, now_ms);
    law_exits_split_positions(sim, state.btc5m_market, now_ms, config.paper);
}

/// The engine evaluates at most once in so many milliseconds.
pub const EVAL_INTERVAL_MS: u64 = 250;

/// The engine asks for settings at most once in so many milliseconds.
pub const CONFIG_POLL_INTERVAL_MS: u64 = 1_000;

/// When the engine last did what it does at intervals.
#[derive(Clone, Copy, Debug)]
pub struct EngineTimers {
    pub last_eval_ms: u64,
    pub last_config_poll_ms: u64,
    pub last_edge_broadcast_ms: u64,
}

impl EngineTimers {
    pub fn new() -> (r: Self)
        ensures
            r == (EngineTimers {
                last_eval_ms: 0,
                last_config_poll_ms: 0,
                last_edge_broadcast_ms: 0,
            }),
    {
        EngineTimers { last_eval_ms: 0, last_config_poll_ms: 0, last_edge_broadcast_ms: 0 }
    }

    /// It is time to ask for settings.
    pub open spec fn poll_is_due(self, now_ms: u64) -> bool {
        elapsed_ms(now_ms, self.last_config_poll_ms) >= CONFIG_POLL_INTERVAL_MS
    }

    /// It is time to evaluate, and the engine is not paused.
    pub open spec fn evaluation_is_due(self, paused: bool, now_ms: u64) -> bool {
        !paused && elapsed_ms(now_ms, self.last_eval_ms) >= EVAL_INTERVAL_MS
    }

    /// It is time to broadcast the edge.
    pub open spec fn broadcast_is_due(self, interval_secs: u64, now_ms: u64) -> bool {
        elapsed_ms(now_ms, self.last_edge_broadcast_ms) >= interval_secs * 1000
    }

    /// Whether it is time to ask for settings; if so, the time is noted.
    pub fn poll_due(&mut self, now_ms: u64) -> (due: bool)
        ensures
            due == old(self).poll_is_due(now_ms),
            due ==> *final(self) == (EngineTimers { last_config_poll_ms: now_ms, ..*old(self) }),
            !due ==> *final(self) == *old(self),
    {
        if now_ms.saturating_sub(self.last_config_poll_ms) >= CONFIG_POLL_INTERVAL_MS {
            self.last_config_poll_ms = now_ms;
            true
        } else {
            false
        }
    }

    /// Whether it is time to evaluate and the engine is not paused; if so, the time is
    /// noted.
    pub fn evaluation_due(&mut self, paused: bool, now_ms: u64) -> (due: bool)
        ensures
            due == old(self).evaluation_is_due(paused, now_ms),
            due ==> *final(self) == (EngineTimers { last_eval_ms: now_ms, ..*old(self) }),
            !due ==> *final(self) == *old(self),
    {
        if paused || now_ms.saturating_sub(self.last_eval_ms) < EVAL_INTERVAL_MS {
            false
        } else {
            self.last_eval_ms = now_ms;
            true
        }
    }

    /// Whether it is time to broadcast the edge; if so, the time is noted.
    pub fn broadcast_due(&mut self, interval_secs: u64, now_ms: u64) -> (due: bool)
        requires
            interval_secs * 1000 <= u64::MAX,
        ensures
            due == old(self).broadcast_is_due(interval_secs, now_ms),
            due ==> *final(self) == (EngineTimers { last_edge_broadcast_ms: now_ms, ..*old(self) }),
            !due ==> *final(self) == *old(self),
    {
        if now_ms.saturating_sub(self.last_edge_broadcast_ms) >= interval_secs * 1000 {
            self.last_edge_broadcast_ms = now_ms;
            true
        } else {
            false
        }
    }
}

/// The engine and all that it keeps between events.
pub struct StrategyEngine {
    pub strategies: Vec<DivergenceStrategy>,
    pub simulator: PaperSimulator,
    pub risk: RiskEngine,
    pub session: SessionState,
    pub runtime: RuntimeConfig,
    pub last_threshold_mode: ThresholdMode,
    pub timers: EngineTimers,
}

/// What a tick of the engine did.
pub struct TickReport {
    /// The new mode and the minutes without a trade, where the mode changed.
    pub mode_change: Option<(ThresholdMode, u64)>,
    /// Nothing where there was nothing to evaluate.
    pub snapshot: Option<TickSnapshot>,
    /// Nothing where there was nothing to evaluate or no room for it.
    pub evaluation: Option<Evaluation>,
}

/// The settings in force: those of the file under the thresholds of the mode, with the
/// spread set at run time.
pub open spec fn active_config(
    base: DivergenceConfig,
    thresholds: EntryThresholds,
    max_spread: Double,
) -> DivergenceConfig {
    DivergenceConfig { max_spread, ..under_thresholds(base, thresholds) }
}

/// The strategies with settings in force.
pub open spec fn configured(
    strategies: Seq<DivergenceStrategy>,
    config: DivergenceConfig,
) -> Seq<DivergenceStrategy> {
    strategies.map_values(|s: DivergenceStrategy| DivergenceStrategy { config, ..s })
}

impl StrategyEngine {
    pub fn new_at(config: &AppConfig, now_ms: u64) -> (r: Self)
        ensures
            r.strategies@ == seq![
                DivergenceStrategy {
                    config: config.strategy.divergence,
                    default_size_usd: config.paper.default_size_usd,
                },
            ],
            r.simulator@ == (SimulatorView {
                positions: Seq::empty(),
                closed_trades: Seq::empty(),
                total_pnl_usd: Double::zero(),
                win_count: 0,
                loss_count: 0,
            }),
            r.risk@ == (RiskView {
                config: config.risk,
                consecutive_losses: 0,
                cooldown_until_ms: None,
                last_trade_per_market: Map::empty(),
            }),
            r.session == SessionState::started_at(now_ms),
            r.runtime.is_initial(*config),
            r.last_threshold_mode == ThresholdMode::Normal,
            r.timers == (EngineTimers {
                last_eval_ms: 0,
                last_config_poll_ms: 0,
                last_edge_broadcast_ms: 0,
            }),
    {
        let mut strategies: Vec<DivergenceStrategy> = Vec::new();
        strategies.push(
            DivergenceStrategy::new(config.strategy.divergence, config.paper.default_size_usd),
        );
        StrategyEngine {
            strategies,
            simulator: PaperSimulator::new(),
            risk: RiskEngine::new(config.risk),
            session: SessionState::new_at(now_ms),
            runtime: RuntimeConfig::initial(config),
            last_threshold_mode: ThresholdMode::Normal,
            timers: EngineTimers::new(),
        }
    }

    /// What an evaluation reads and changes.
    pub open spec fn desk(&self) -> Desk {
        Desk { sim: self.simulator@, risk: self.risk@, session: self.session }
    }

    fn configure(&mut self, config: DivergenceConfig)
        ensures
            final(self).strategies@ == configured(old(self).strategies@, config),
            *final(self) == (StrategyEngine { strategies: final(self).strategies, ..*old(self) }),
    {
        let ghost start = self.strategies@;
        let mut i: usize = 0;
        while i < self.strategies.len()
            invariant
                i <= start.len(),
                self.strategies@.len() == start.len(),
                forall|j: int|
                    0 <= j < i ==> #[trigger] self.strategies@[j] == (DivergenceStrategy {
                        config,
                        ..start[j]
                    }),
                forall|j: int| i <= j < start.len() ==> #[trigger] self.strategies@[j] == start[j],
                *self == (StrategyEngine { strategies: self.strategies, ..*old(self) }),
            decreases start.len() - i,
        {
            let size: Double = self.strategies[i].default_size_usd;
            self.strategies.set(i, DivergenceStrategy::new(config, size));
            i = i + 1;
        }
        assert(self.strategies@ =~= configured(start, config));
    }

    /// What a tick at a time makes of the engine, and what it reports.
    pub open spec fn tick_follows(
        &self,
        after: &StrategyEngine,
        state: &MarketState,
        config: &AppConfig,
        now_ms: u64,
        r: TickReport,
    ) -> bool {
        let session = self.session.at(now_ms);
        let runtime = self.runtime;
        let mode = session.mode(config.strategy, now_ms);
        let thresholds = thresholds_of(
            mode,
            config.strategy,
            runtime.min_edge_pct,
            runtime.min_confidence,
        );
        let active = active_config(
            config.strategy.divergence,
            thresholds,
            runtime.max_spread_for_trade,
        );
        let before = Desk { session, ..self.desk() };
        &&& after.runtime == self.runtime
        &&& after.timers == self.timers
        &&& after.last_threshold_mode == mode
        &&& r.mode_change == if mode != self.last_threshold_mode {
            Some((mode, session.idle_mins(now_ms)))
        } else {
            None
        }
        &&& after.strategies@ == configured(self.strategies@, active)
        &&& r.snapshot is Some <==> has_data(*state)
        &&& !has_data(*state) ==> r.evaluation is None && after.desk() == before
        &&& has_data(*state) ==> {
            &&& r.snapshot->0 == snapshot_of(
                state.btc,
                state.btc5m_market->0,
                active,
                mode,
                thresholds,
                self.simulator@.has_position(state.btc5m_market->0.slug@),
                runtime.paused,
                now_ms,
            )
            &&& evaluated(
                state,
                after.strategies@,
                before,
                after.desk(),
                config,
                &runtime,
                &r.snapshot->0,
                now_ms,
                r.evaluation,
            )
        }
    }

    /// Runs the engine on the state of the market at a time: the session and the
    /// thresholds are brought up to date, the market is evaluated, and positions are
    /// entered and left. Where times or counters leave no room for the evaluation, there is
    /// none and no position is touched.
    pub fn tick(&mut self, state: &MarketState, config: &AppConfig, now_ms: u64) -> (r: TickReport)
        ensures
            old(self).tick_follows(&*final(self), state, config, now_ms, r),
    {
        self.session.maybe_reset_session_at(now_ms);
        let (mode, thresholds) = self.session.active_thresholds_at(
            config,
            self.runtime.min_edge_pct,
            self.runtime.min_confidence,
            now_ms,
        );
        let mode_change: Option<(ThresholdMode, u64)> = if mode != self.last_threshold_mode {
            Some((mode, self.session.mins_since_last_trade_at(now_ms)))
        } else {
            None
        };
        self.last_threshold_mode = mode;
        let mut active: DivergenceConfig = apply_entry_thresholds(
            &config.strategy.divergence,
            &thresholds,
        );
        active.max_spread = self.runtime.max_spread_for_trade;
        self.configure(active);
        let has_position: bool = match &state.btc5m_market {
            Some(m) => self.simulator.has_position(m.slug.as_str()),
            None => false,
        };
        let snapshot: Option<TickSnapshot> = take_snapshot(
            state,
            &active,
            mode,
            thresholds,
            has_position,
            self.runtime.paused,
            now_ms,
        );
        let evaluation: Option<Evaluation> = match &snapshot {
            Some(ts) => evaluate_all_at(
                state,
                &self.strategies,
                &mut self.simulator,
                &mut self.risk,
                &mut self.session,
                config,
                &self.runtime,
                ts,
                now_ms,
            ),
            None => None,
        };
        TickReport { mode_change, snapshot, evaluation }
    }
}

/// What is broadcast of a market and what it scored.
pub open spec fn broadcast_of(
    state: MarketState,
    ts: TickSnapshot,
    mins_since_last_trade: u64,
) -> EdgeSnapshot {
    let market = state.btc5m_market->0;
    EdgeSnapshot {
        market_id: market.slug,
        question: market.question,
        poly_yes_pct: market.yes_price,
        poly_no_pct: market.no_price,
        divergence_score: ts.estimate.divergence_score,
        expected_repricing: ts.estimate.expected_repricing,
        edge_pct: ts.edge_score.edge_pct,
        tradeable: ts.edge_score.tradeable,
        direction: Some(ts.edge_score.direction),
        btc_price: state.btc.price,
        btc_trend: state.btc.microtrend,
        velocity_trend: state.btc.velocity_trend,
        time_remaining_secs: market.time_remaining_secs,
        confidence: ts.edge_score.confidence,
        price_velocity: state.btc.price_velocity,
        volume_delta: state.btc.volume_delta,
        order_flow_ratio: state.btc.order_flow_ratio,
        velocity_consistency: state.btc.velocity_consistency,
        price_acceleration: state.btc.price_acceleration,
        missing_reason: ts.missing_reason,
        threshold_mode: ts.threshold_mode,
        mins_since_last_trade,
        active_min_edge_pct: ts.thresholds.min_edge_pct,
        active_min_confidence: ts.thresholds.min_confidence,
    }
}

/// The snapshot that is broadcast at a time.
pub fn edge_snapshot_at(
    state: &MarketState,
    config: &AppConfig,
    runtime: &RuntimeConfig,
    session: &SessionState,
    tick: &Option<TickSnapshot>,
    now_ms: u64,
) -> (r: EdgeSnapshot)
    requires
        tick is Some ==> state.btc5m_market is Some,
    ensures
        r.btc_price == state.btc.price,
        r.btc_trend == state.btc.microtrend,
        r.velocity_trend == state.btc.velocity_trend,
        r.mins_since_last_trade == session.idle_mins(now_ms),
        tick is None ==> {
            let mode = session.mode(config.strategy, now_ms);
            let thresholds = thresholds_of(
                mode,
                config.strategy,
                runtime.min_edge_pct,
                runtime.min_confidence,
            );
            &&& r.market_id@ == ""@
            &&& r.question@ == ""@
            &&& r.poly_yes_pct == Double::zero()
            &&& r.poly_no_pct == Double::zero()
            &&& r.divergence_score == Double::zero()
            &&& r.expected_repricing == Double::zero()
            &&& r.edge_pct == Double::zero()
            &&& !r.tradeable
            &&& r.direction is None
            &&& r.time_remaining_secs == 0
            &&& r.confidence == Double::zero()
            &&& r.price_velocity == Double::zero()
            &&& r.volume_delta == Double::zero()
            &&& r.order_flow_ratio == Double::ratio(5, 10)
            &&& r.velocity_consistency == Double::ratio(5, 10)
            &&& r.price_acceleration == Double::zero()
            &&& r.missing_reason == MissingReason::NoMarket
            &&& r.threshold_mode == mode
            &&& r.active_min_edge_pct == thresholds.min_edge_pct
            &&& r.active_min_confidence == thresholds.min_confidence
        },
        tick is Some ==> r == broadcast_of(*state, tick->0, session.idle_mins(now_ms)),
{
    let mins_since_last_trade: u64 = session.mins_since_last_trade_at(now_ms);
    match (tick, &state.btc5m_market) {
        (Some(ts), Some(market)) => EdgeSnapshot {
            market_id: market.slug.clone(),
            question: market.question.clone(),
            poly_yes_pct: market.yes_price,
            poly_no_pct: market.no_price,
            divergence_score: ts.estimate.divergence_score,
            expected_repricing: ts.estimate.expected_repricing,
            edge_pct: ts.edge_score.edge_pct,
            tradeable: ts.edge_score.tradeable,
            direction: Some(ts.edge_score.direction),
            btc_price: state.btc.price,
            btc_trend: state.btc.microtrend,
            velocity_trend: state.btc.velocity_trend,
            time_remaining_secs: market.time_remaining_secs,
            confidence: ts.edge_score.confidence,
            price_velocity: state.btc.price_velocity,
            volume_delta: state.btc.volume_delta,
            order_flow_ratio: state.btc.order_flow_ratio,
            velocity_consistency: state.btc.velocity_consistency,
            price_acceleration: state.btc.price_acceleration,
            missing_reason: ts.missing_reason,
            threshold_mode: ts.threshold_mode,
            mins_since_last_trade,
            active_min_edge_pct: ts.thresholds.min_edge_pct,
            active_min_confidence: ts.thresholds.min_confidence,
        },
        _ => {
            let (threshold_mode, thresholds) = session.active_thresholds_at(
                config,
                runtime.min_edge_pct,
                runtime.min_confidence,
                now_ms,
            );
            let zero: Double = Double::zero();
            let half: Double = Double::ratio(5, 10);
            EdgeSnapshot {
                market_id: "".to_owned(),
                question: "".to_owned(),
                poly_yes_pct: zero,
                poly_no_pct: zero,
                divergence_score: zero,
                expected_repricing: zero,
                edge_pct: zero,
                tradeable: false,
                direction: None,
                btc_price: state.btc.price,
                btc_trend: state.btc.microtrend,
                velocity_trend: state.btc.velocity_trend,
                time_remaining_secs: 0,
                confidence: zero,
                price_velocity: zero,
                volume_delta: zero,
                order_flow_ratio: half,
                velocity_consistency: half,
                price_acceleration: zero,
                missing_reason: MissingReason::NoMarket,
                threshold_mode,
                mins_since_last_trade,
                active_min_edge_pct: thresholds.min_edge_pct,
                active_min_confidence: thresholds.min_confidence,
            }
        },
    }
}

/// An evaluation may enter exactly where BTC has a price and there is a market, its price is
/// as fresh as all limits ask (in fallback, the limit of the fallback), the prices are fit to
/// trade on, the market is active, and the engine does not merely observe. Positions are
/// looked at wherever the price is not stale.
pub proof fn law_gate_opens_for_fresh_prices(state: MarketState, config: AppConfig, now_ms: u64)
    requires
        state.btc5m_market is Some,
        state.btc5m_market->0.last_fetched_ms <= now_ms,
        !state.btc.price.is_nan(),
    ensures
        ({
            let m = state.btc5m_market->0;
            let age = now_ms - m.last_fetched_ms;
            let fresh = if state.latency.fallback_mode {
                age <= config.data_quality.max_price_age_fallback_ms
            } else {
                age <= config.data_quality.max_price_age_ms
            };
            let gate = gate_of(state, config, now_ms);
            &&& gate == Gate::Open <==> {
                &&& state.btc.price.value() != 0
                &&& age <= config.btc5m.price_stale_threshold_ms
                &&& fresh
                &&& sum_is_one(&m) && !stuck_at_half(&m) && !extreme_price(&m)
                &&& m.phase == MarketPhase::Active
                &&& !config.strategy.observation_mode
            }
            &&& gate.exits() <==> state.btc.price.value() != 0 && age
                <= config.btc5m.price_stale_threshold_ms
            &&& gate is NoData <==> state.btc.price.value() == 0
            &&& gate matches Gate::Suppressed { elapsed_ms } ==> elapsed_ms == age
        }),
{
    reveal(Double::spec_equals);
    assert(magnitude(0) == 0);
}

/// A signal is entered on exactly where the last trade did not lose in its direction, its
/// market has no position, and the risk limits allow it.
pub proof fn law_signal_is_entered_on_only_if_free(
    sim: SimulatorView,
    risk: RiskView,
    signal: TradeSignal,
    now_ms: u64,
)
    requires
        sim.closed_trades.len() > 0 ==> !sim.closed_trades.last().pnl_usd.is_nan(),
    ensures
        ({
            let last = sim.closed_trades.last();
            let lost = sim.closed_trades.len() > 0 && last.pnl_usd.value() < 0 && last.direction
                == signal.direction;
            let outcome = outcome_of(sim, risk, Some(signal), now_ms);
            &&& outcome is Opened <==> !lost && !sim.has_position(signal.market_id@)
                && risk.verdict(signal.market_id@, sim, now_ms) is None
            &&& outcome is DirectionCooldown <==> lost
            &&& outcome matches SignalOutcome::Blocked { reason } ==> risk.verdict(
                signal.market_id@,
                sim,
                now_ms,
            ) == Some(reason)
        }),
        outcome_of(sim, risk, None, now_ms) is NoSignal,
{
    reveal(Double::spec_lt);
    assert(magnitude(0) == 0);
}

/// A position that is entered is of the size set at run time, in the direction and at the
/// price of its signal.
pub proof fn law_entry_has_the_size_set(signal: TradeSignal, size_usd: Double, now_ms: u64)
    ensures
        ({
            let p = sized_position(signal, size_usd, now_ms);
            &&& p.size_usd == size_usd
            &&& p.direction == signal.direction
            &&& p.market_id == signal.market_id
            &&& p.entry_price == signal.target_entry_price
            &&& p.entry_at_ms == now_ms
        }),
{
}

/// At the floor, where that is configured, strategies see an edge above the minimum as
/// tradeable; nothing else about an edge is ever changed for them.
pub proof fn law_floor_offers_any_edge(snapshot: TickSnapshot, config: AppConfig)
    requires
        snapshot.edge_score.edge_pct.is_finite(),
        snapshot.thresholds.min_edge_pct.is_finite(),
    ensures
        ({
            let edge = snapshot.edge_score;
            let seen = offered_edge(snapshot, config);
            &&& seen.tradeable <==> edge.tradeable || snapshot.threshold_mode
                == ThresholdMode::Floor && config.strategy.floor_entry_if_any_signal
                && edge.edge_pct.value() > snapshot.thresholds.min_edge_pct.value()
            &&& seen.direction == edge.direction
            &&& seen.edge_pct == edge.edge_pct
            &&& seen.confidence == edge.confidence
            &&& edge.tradeable ==> seen == edge
        }),
{
    reveal(Double::spec_lt);
}

/// The settings in force have the thresholds of the mode and the spread set at run time.
pub proof fn law_active_settings_have_the_spread_set(
    base: DivergenceConfig,
    thresholds: EntryThresholds,
    max_spread: Double,
)
    ensures
        ({
            let c = active_config(base, thresholds, max_spread);
            &&& c.max_spread == max_spread
            &&& c.min_edge_pct == thresholds.min_edge_pct
            &&& c.min_confidence == thresholds.min_confidence
            &&& c.min_velocity_abs == thresholds.min_velocity_abs
            &&& c.market_uncertainty_min == thresholds.market_uncertainty_min
            &&& c.market_uncertainty_max == thresholds.market_uncertainty_max
            &&& c.profit_target_pct == base.profit_target_pct
            &&& c.stop_loss_pct == base.stop_loss_pct
        }),
{
}

/// A size that is polled stays from ten cents to a hundred dollars, where the size so far and
/// the one that stands in are; a poll that gives no such size changes nothing.
pub proof fn law_polled_size_stays_in_bounds(reply: Reply, current: Double, fallback: Double)
    requires
        is_size(current),
        is_size(fallback),
    ensures
        is_size(polled_size(reply, current, fallback)),
        reply matches Reply::Value(s) ==> {
            let asked = Double::reading(s@);
            &&& asked is Some && is_size(asked->0) ==> polled_size(reply, current, fallback)
                == asked->0
            &&& !(asked is Some && is_size(asked->0)) ==> polled_size(reply, current, fallback)
                == current
        },
        !(reply is Value) ==> polled_size(reply, current, fallback) == fallback,
{
    reveal(Double::spec_lt);
    reveal(Double::spec_equals);
    law_integer_is_a_number(100);
    law_ratio_up_to_one(10, 100);
}

/// A size from ten cents to a hundred dollars.
pub open spec fn is_size(x: Double) -> bool {
    !x.is_nan() && Double::ratio(10, 100).value() <= x.value() <= Double::from_u64(100).value()
}

/// A setting polled in per cent is taken as a hundredth: a hundred per cent is one, and the
/// order is kept. A value that reads as no number leaves the setting as it is.
pub proof fn law_polled_percent_is_a_hundredth(
    reply: Reply,
    larger: Reply,
    current: Double,
    fallback: Double,
)
    ensures
        reply matches Reply::Value(s) ==> {
            let asked = Double::reading(s@);
            &&& asked == Some(Double::from_u64(100)) ==> polled_percent(reply, current, fallback)
                == Double::one()
            &&& asked is None ==> polled_percent(reply, current, fallback) == current
        },
        reply matches Reply::Value(s) ==> larger matches Reply::Value(t) ==> {
            let (x, y) = (Double::reading(s@), Double::reading(t@));
            x is Some && y is Some && x->0.is_finite() && y->0.is_finite() && x->0.value()
                <= y->0.value() ==> polled_percent(reply, current, fallback).value()
                <= polled_percent(larger, current, fallback).value()
        },
        !(reply is Value) ==> polled_percent(reply, current, fallback) == fallback,
{
    law_integer_is_a_number(100);
    lemma_pow2_pos(1074);
    law_self_quotient_is_one(Double::from_u64(100));
    if let Reply::Value(s) = reply {
        if let Reply::Value(t) = larger {
            let (x, y) = (Double::reading(s@), Double::reading(t@));
            if x is Some && y is Some && x->0.is_finite() && y->0.is_finite() && x->0.value()
                <= y->0.value() {
                law_quotient_keeps_order(x->0, y->0, Double::from_u64(100));
            }
        }
    }
}

/// An order flow that is even makes no opportunity.
pub proof fn law_even_flow_is_no_opportunity(
    btc: BtcState,
    market: Btc5mMarket,
    active: DivergenceConfig,
    mode: ThresholdMode,
    thresholds: EntryThresholds,
    has_position: bool,
    paused: bool,
    now_ms: u64,
)
    requires
        btc.order_flow_ratio == Double::ratio(5, 10),
        btc.velocity_consistency.in_unit_range(),
        active.max_expected_repricing.is_finite(),
    ensures
        snapshot_of(
            btc,
            market,
            active,
            mode,
            thresholds,
            has_position,
            paused,
            now_ms,
        ).opportunity_score.value() == 0,
{
    let s = snapshot_of(btc, market, active, mode, thresholds, has_position, paused, now_ms);
    let input = ProbabilityInput {
        market_id: market.slug,
        current_yes_price: market.yes_price,
        current_no_price: market.no_price,
        btc_state: btc,
        time_remaining_secs: market.time_remaining_secs,
        spread: market.spread,
    };
    law_confidence_is_a_share(input, active, now_ms);
    law_repricing_is_within_its_bound(input, active, now_ms);
    reveal(Double::spec_lt);
    reveal(Double::spec_equals);
    reveal(Double::spec_abs);
    assert(magnitude(0) == 0);
    lemma_one();
    lemma_half();
    let half = Double::ratio(5, 10);
    law_difference_has_a_sign(half, half);
    let (edge, confidence) = (s.edge_score.edge_pct, s.edge_score.confidence);
    lemma_share_is_finite(btc.velocity_consistency);
    lemma_small_is_finite(confidence);
    lemma_small_is_finite(edge);
    law_product_with_fraction(edge, confidence);
    let a = edge.mul(confidence);
    law_product_with_fraction(a, btc.velocity_consistency);
    let b = a.mul(btc.velocity_consistency);
    let away = half.sub(half).abs();
    assert(away.is_finite() && away.value() == 0) by {
        reveal(Double::spec_add);
        reveal(Double::spec_neg);
    }
    law_product_with_fraction(b, away);
    law_integer_is_a_number(2);
    law_product_with_fraction(b.mul(away), Double::from_u64(2));
    law_product_has_no_value(b.mul(away), Double::from_u64(2));
}

/// A poll of a server that holds no settings leaves those of the file, whatever they were.
pub proof fn law_missing_settings_are_those_of_the_file(
    before: RuntimeConfig,
    after: RuntimeConfig,
    polled: PolledConfig,
    config: AppConfig,
)
    requires
        before.takes_over(&after, polled, config),
        polled.paused is Missing,
        polled.size_usd is Missing,
        polled.mode is Missing,
        polled.min_edge_pct is Missing,
        polled.min_confidence is Missing,
        polled.max_spread_for_trade is Missing,
        polled.consecutive_loss_limit is Missing,
        polled.cooldown_after_loss_secs is Missing,
    ensures
        after.is_initial(config),
{
}

/// Each value that is polled sets its own setting: the edge and the spread as per cents, the
/// confidence as it is, counts where they are integers, and the pause where it is true.
pub proof fn law_polled_values_set_their_own(
    before: RuntimeConfig,
    after: RuntimeConfig,
    polled: PolledConfig,
    config: AppConfig,
)
    requires
        before.takes_over(&after, polled, config),
    ensures
        polled.min_confidence matches Reply::Value(s) ==> Double::reading(s@) matches Some(x)
            ==> after.min_confidence == x,
        polled.min_edge_pct matches Reply::Value(s) ==> Double::reading(s@) == Some(
            Double::from_u64(100),
        ) ==> after.min_edge_pct == Double::one(),
        polled.max_spread_for_trade matches Reply::Value(s) ==> Double::reading(s@) == Some(
            Double::from_u64(100),
        ) ==> after.max_spread_for_trade == Double::one(),
        polled.consecutive_loss_limit matches Reply::Value(s) ==> unsigned_integer(
            s@,
            u32::MAX as u64,
        ) matches Some(n) ==> after.consecutive_loss_limit == n,
        polled.cooldown_after_loss_secs matches Reply::Value(s) ==> unsigned_integer(
            s@,
            u64::MAX,
        ) matches Some(n) ==> after.cooldown_after_loss_secs == n,
        polled.paused matches Reply::Value(s) ==> (after.paused <==> s@ == "true"@),
        polled.paused is Failed ==> after.paused == before.paused,
        polled.mode is Failed ==> after.mode@ == before.mode@,
        polled.mode matches Reply::Value(s) ==> after.mode@ == s@,
        polled.size_usd matches Reply::Value(s) ==> Double::reading(s@) matches Some(x) ==> is_size(
            x,
        ) ==> after.size_usd == x,
{
    law_integer_is_a_number(100);
    lemma_pow2_pos(1074);
    law_self_quotient_is_one(Double::from_u64(100));
    reveal(Double::spec_lt);
    reveal(Double::spec_equals);
    law_ratio_up_to_one(10, 100);
}

/// The limits set at run time replace those of losses and their cooldown, and nothing else.
pub proof fn law_runtime_limits_are_those_of_losses(risk: RiskView, runtime: RuntimeConfig)
    ensures
        ({
            let after = with_runtime_limits(risk, runtime);
            &&& after.config.consecutive_loss_limit == runtime.consecutive_loss_limit
            &&& after.config.cooldown_after_loss_secs == runtime.cooldown_after_loss_secs
            &&& after.config == (RiskConfig {
                consecutive_loss_limit: runtime.consecutive_loss_limit,
                cooldown_after_loss_secs: runtime.cooldown_after_loss_secs,
                ..risk.config
            })
            &&& after == (RiskView { config: after.config, ..risk })
        }),
{
}

/// Entering on signals adds exactly the positions that they open, in order, each of the size
/// set at run time and entered at the time, and counts each as a trade of the session.
pub proof fn law_entries_are_the_positions_opened(
    sim: SimulatorView,
    session: SessionState,
    risk: RiskView,
    signals: Seq<Option<TradeSignal>>,
    size_usd: Double,
    now_ms: u64,
)
    requires
        session.trades_this_session + signals.len() <= u32::MAX,
    ensures
        ({
            let (after, counted) = entered(sim, session, risk, signals, size_usd, now_ms);
            let opened = opened_by(sim, session, risk, signals, size_usd, now_ms);
            let outcomes = outcomes_of(sim, session, risk, signals, size_usd, now_ms);
            &&& after == (SimulatorView { positions: sim.positions + opened, ..sim })
            &&& counted.trades_this_session == session.trades_this_session + opened.len()
            &&& opened.len() <= signals.len()
            &&& outcomes.len() == signals.len()
            &&& opened.len() > 0 ==> counted.last_trade_at_ms == Some(now_ms)
            &&& forall|i: int|
                0 <= i < opened.len() ==> (#[trigger] opened[i]).size_usd == size_usd
                    && opened[i].entry_at_ms == now_ms
        }),
    decreases signals.len(),
{
    if signals.len() > 0 {
        let front = signals.drop_last();
        law_entries_are_the_positions_opened(sim, session, risk, front, size_usd, now_ms);
        let (s, _) = entered(sim, session, risk, front, size_usd, now_ms);
        let before = opened_by(sim, session, risk, front, size_usd, now_ms);
        if outcome_of(s, risk, signals.last(), now_ms) is Opened {
            let position = sized_position(signals.last()->0, size_usd, now_ms);
            lemma_position_index(s.positions, position.market_id@);
            assert((sim.positions + before).push(position) =~= sim.positions + before.push(
                position,
            ));
        }
    } else {
        assert(sim.positions + Seq::<PaperPosition>::empty() =~= sim.positions);
    }
}

/// The engine asks for settings at most once a second, evaluates at most four times a second
/// and never while it is paused, and broadcasts at most once in the interval.
pub proof fn law_timers_keep_their_intervals(
    timers: EngineTimers,
    interval_secs: u64,
    paused: bool,
    now_ms: u64,
)
    requires
        timers.last_config_poll_ms <= now_ms,
        timers.last_eval_ms <= now_ms,
        timers.last_edge_broadcast_ms <= now_ms,
    ensures
        timers.poll_is_due(now_ms) <==> now_ms - timers.last_config_poll_ms >= 1000,
        timers.evaluation_is_due(paused, now_ms) <==> !paused && 4 * (now_ms - timers.last_eval_ms)
            >= 1000,
        timers.broadcast_is_due(interval_secs, now_ms) <==> now_ms - timers.last_edge_broadcast_ms
            >= interval_secs * 1000,
{
}

/// A tick reports a mode exactly where it is another one than before, keeps the settings set
/// at run time, and has a snapshot exactly where there are data. A paused engine and one that
/// holds a position in the market say so.
pub proof fn law_tick_reports_what_holds_it_back(
    before: StrategyEngine,
    after: StrategyEngine,
    state: &MarketState,
    config: &AppConfig,
    now_ms: u64,
    r: TickReport,
)
    requires
        before.tick_follows(&after, state, config, now_ms, r),
    ensures
        r.mode_change is Some <==> after.last_threshold_mode != before.last_threshold_mode,
        r.mode_change matches Some((mode, mins)) ==> mode == after.last_threshold_mode,
        after.runtime == before.runtime,
        r.snapshot is Some <==> has_data(*state),
        r.snapshot matches Some(ts) ==> {
            &&& ts.missing_reason is Paused <==> before.runtime.paused
            &&& ts.missing_reason is HoldingPosition <==> !before.runtime.paused
                && before.simulator@.has_position(state.btc5m_market->0.slug@)
            &&& ts.threshold_mode == after.last_threshold_mode
        },
        r.snapshot is None ==> r.evaluation is None && after.simulator@ == before.simulator@
            && after.risk@ == before.risk@,
        forall|i: int|
            0 <= i < before.strategies@.len() ==> (
            #[trigger] after.strategies@[i]).config.max_spread
                == before.runtime.max_spread_for_trade && after.strategies@[i].default_size_usd
                == before.strategies@[i].default_size_usd,
{
}

/// An evaluation without data changes nothing; any other puts the limits of losses set at
/// run time in force, and one behind a gate that looks at no positions leaves positions,
/// trades and the session alone.
pub proof fn law_evaluation_uses_runtime_limits(
    state: &MarketState,
    before: Desk,
    after: Desk,
    config: &AppConfig,
    runtime: &RuntimeConfig,
    now_ms: u64,
    r: Evaluation,
)
    requires
        evaluation_runs(state, before, after, config, runtime, now_ms, r),
    ensures
        r.gate is NoData ==> after == before,
        !(r.gate is NoData) ==> after.risk.config.consecutive_loss_limit
            == runtime.consecutive_loss_limit && after.risk.config.cooldown_after_loss_secs
            == runtime.cooldown_after_loss_secs,
        !r.gate.exits() ==> after.sim == before.sim && after.session == before.session
            && r.closed@.len() == 0,
{
    let limits = with_runtime_limits(before.risk, *runtime);
    lemma_closes_keep_limits(limits, r.closed@, now_ms);
}

proof fn lemma_closes_keep_limits(risk: RiskView, trades: Seq<ClosedTrade>, now_ms: u64)
    ensures
        risk.after_closes(trades, now_ms).config == risk.config,
    decreases trades.len(),
{
    if trades.len() > 0 {
        lemma_closes_keep_limits(risk, trades.drop_last(), now_ms);
    }
}

/// An opportunity grows with the edge, the confidence, how steady the flow is and how far it
/// is from even, on either side, and counts that distance twice.
pub proof fn law_opportunity_grows(
    edge: (Double, Double),
    confidence: (Double, Double),
    consistency: (Double, Double),
    flow: (Double, Double),
)
    requires
        edge.0.in_unit_range() && edge.1.in_unit_range(),
        confidence.0.in_unit_range() && confidence.1.in_unit_range(),
        consistency.0.in_unit_range() && consistency.1.in_unit_range(),
        flow.0.is_finite() && flow.1.is_finite(),
        edge.0.value() <= edge.1.value(),
        confidence.0.value() <= confidence.1.value(),
        consistency.0.value() <= consistency.1.value(),
        flow.0.sub(Double::ratio(5, 10)).size() <= flow.1.sub(Double::ratio(5, 10)).size(),
        flow.1.sub(Double::ratio(5, 10)).size() <= Double::one().size(),
    ensures
        ({
            let less = opportunity_of(edge.0, confidence.0, consistency.0, flow.0);
            let more = opportunity_of(edge.1, confidence.1, consistency.1, flow.1);
            let away = flow.1.sub(Double::ratio(5, 10));
            &&& 0 <= less.value() <= more.value()
            &&& edge.1.value() == 0 || confidence.1.value() == 0 || consistency.1.value() == 0
                || away.value() == 0 ==> more.value() == 0
            &&& edge.1 == Double::one() && confidence.1 == Double::one() && consistency.1
                == Double::one() ==> more.value() == 2 * away.size()
        }),
{
    reveal(Double::spec_abs);
    assert(magnitude(0) == 0);
    lemma_one();
    lemma_half();
    let (one, half, two) = (Double::one(), Double::ratio(5, 10), Double::from_u64(2));
    law_difference_has_a_sign(flow.0, half);
    law_difference_has_a_sign(flow.1, half);
    let (u, v) = (flow.0.sub(half).abs(), flow.1.sub(half).abs());
    lemma_share_is_finite(edge.0);
    lemma_share_is_finite(edge.1);
    lemma_share_is_finite(confidence.0);
    lemma_share_is_finite(confidence.1);
    lemma_share_is_finite(consistency.0);
    lemma_share_is_finite(consistency.1);
    lemma_small_is_finite(u);
    lemma_small_is_finite(v);
    lemma_weighted(edge.0, edge.1, confidence.0, confidence.1);
    let (a, b) = (edge.0.mul(confidence.0), edge.1.mul(confidence.1));
    lemma_weighted(a, b, consistency.0, consistency.1);
    let (c, d) = (a.mul(consistency.0), b.mul(consistency.1));
    lemma_weighted(c, d, u, v);
    law_product_with_two(c.mul(u));
    law_product_with_two(d.mul(v));
    law_product_with_one(one);
    law_product_with_one(v);
    if edge.1.value() == 0 || confidence.1.value() == 0 {
        if edge.1.value() == 0 {
            law_product_has_no_value(edge.1, confidence.1);
        } else {
            law_product_has_no_value(confidence.1, edge.1);
        }
    }
    if b.value() == 0 || consistency.1.value() == 0 {
        if b.value() == 0 {
            law_product_has_no_value(b, consistency.1);
        } else {
            law_product_has_no_value(consistency.1, b);
        }
    }
    if d.value() == 0 {
        law_product_has_no_value(d, v);
    }
    if v.value() == 0 {
        law_product_has_no_value(v, d);
    }
}

/// Larger shares have a larger product, which is a share.
proof fn lemma_weighted(a: Double, b: Double, v: Double, w: Double)
    requires
        a.is_finite() && b.is_finite() && v.is_finite() && w.is_finite(),
        0 <= a.value() <= b.value() <= Double::one().value(),
        0 <= v.value() <= w.value() <= Double::one().value(),
    ensures
        a.mul(v).is_finite() && b.mul(w).is_finite(),
        0 <= a.mul(v).value() <= b.mul(w).value() <= Double::one().value(),
{
    lemma_one();
    let one = Double::one();
    assert(magnitude(0) == 0);
    law_product_grows(a, v, w);
    law_product_grows(w, a, b);
    law_product_grows(b, w, one);
    law_product_with_one(b);
    law_product_grows(b, w, w);
    lemma_small_is_finite(a.mul(v));
    lemma_small_is_finite(b.mul(w));
}

} // verus!
