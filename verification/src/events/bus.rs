//! The events that flow between the tasks.
use vstd::prelude::*;

use crate::market_data::price_validator::{PriceRejectReason, PriceSource};
use crate::market_data::state::{
    Btc5mMarket, BtcTick, MarketPhase, MicroTrend, PolymarketState, VelocityTrend,
};
use crate::numeric::Double;
use crate::paper::simulator::{ClosedTrade, PaperPosition};
use crate::probability::edge::{Direction, EdgeReason};
use crate::strategy::session::ThresholdMode;
use crate::text::shows;

verus! {

/// The feed that a message comes from.
#[derive(Clone, Copy, Debug, PartialEq, Eq, Structural)]
pub enum FeedSource {
    Binance,
    Polymarket,
}

impl FeedSource {
    pub fn as_str(&self) -> (r: &'static str)
        ensures
            r@ == self.text(),
    {
        match self {
            FeedSource::Binance => "binance",
            FeedSource::Polymarket => "polymarket",
        }
    }

    pub open spec fn text(self) -> Seq<char> {
        match self {
            FeedSource::Binance => "binance"@,
            FeedSource::Polymarket => "polymarket"@,
        }
    }
}

/// The state of a feed's connection.
#[derive(Clone, Copy, Debug, PartialEq, Eq, Structural)]
pub enum ConnectionStatus {
    Connected,
    Disconnected,
    Reconnecting { delay_secs: u64 },
}

/// A step in the life of a market.
#[derive(Clone, Copy, Debug, PartialEq, Eq, Structural)]
pub enum CycleEventType {
    MarketActivated,
    FinalWindowEntered,
    MarketSettled,
    NextMarketPreloaded,
}

impl CycleEventType {
    pub fn as_str(&self) -> (r: &'static str)
        ensures
            r@ == match *self {
                CycleEventType::MarketActivated => "MarketActivated"@,
                CycleEventType::FinalWindowEntered => "FinalWindowEntered"@,
                CycleEventType::MarketSettled => "MarketSettled"@,
                CycleEventType::NextMarketPreloaded => "NextMarketPreloaded"@,
            },
    {
        match self {
            CycleEventType::MarketActivated => "MarketActivated",
            CycleEventType::FinalWindowEntered => "FinalWindowEntered",
            CycleEventType::MarketSettled => "MarketSettled",
            CycleEventType::NextMarketPreloaded => "NextMarketPreloaded",
        }
    }
}

#[derive(Debug)]
pub struct MarketCycleEvent {
    pub event_type: CycleEventType,
    pub market: Btc5mMarket,
    pub server_time_unix: Double,
}

/// What keeps the engine from a trade.
#[derive(Clone, Copy, Debug)]
pub enum MissingReason {
    Paused,
    HoldingPosition,
    NoMarket,
    Phase { phase: MarketPhase },
    /// Confidence is short by this much.
    NeedsConfidence { needed: Double },
    /// The edge is short by this much.
    NeedsEdge { needed: Double },
    Gate { reason: EdgeReason },
    NotTradeable,
    LowVelocity { velocity: Double, min_velocity: Double },
    Choppy,
    VolumeNotAligned,
    FlowNotAligned { ratio: Double },
    Inconsistent { consistency: Double, min_consistency: Double },
    Decelerating { acceleration: Double },
    Nothing,
}

impl MissingReason {
    /// The reason in words, where they show no double.
    pub open spec fn words(self) -> Option<Seq<char>> {
        match self {
            MissingReason::Paused => Some("Engine paused"@),
            MissingReason::HoldingPosition => Some("Holding open position"@),
            MissingReason::NoMarket => Some("No active market"@),
            MissingReason::Phase { phase } => Some("Market phase is "@ + phase.word()),
            MissingReason::Gate { reason } => reason.words(),
            MissingReason::NotTradeable => Some("Not tradeable"@),
            MissingReason::Choppy => Some("microtrend is Choppy"@),
            MissingReason::VolumeNotAligned => Some("Volume delta not aligned with velocity"@),
            MissingReason::Nothing => Some("None"@),
            _ => None,
        }
    }

    pub fn text(&self) -> (r: Option<String>)
        ensures
            shows(r, self.words()),
    {
        match self {
            MissingReason::Paused => Some("Engine paused".to_owned()),
            MissingReason::HoldingPosition => Some("Holding open position".to_owned()),
            MissingReason::NoMarket => Some("No active market".to_owned()),
            MissingReason::Phase { phase } => Some(
                "Market phase is ".to_owned().concat(phase.as_str()),
            ),
            MissingReason::Gate { reason } => reason.text(),
            MissingReason::NotTradeable => Some("Not tradeable".to_owned()),
            MissingReason::Choppy => Some("microtrend is Choppy".to_owned()),
            MissingReason::VolumeNotAligned => Some(
                "Volume delta not aligned with velocity".to_owned(),
            ),
            MissingReason::Nothing => Some("None".to_owned()),
            _ => None,
        }
    }
}

/// The edge on the active market, as it is broadcast.
#[derive(Debug)]
pub struct EdgeSnapshot {
    pub market_id: String,
    pub question: String,
    pub poly_yes_pct: Double,
    pub poly_no_pct: Double,
    pub divergence_score: Double,
    pub expected_repricing: Double,
    pub edge_pct: Double,
    pub tradeable: bool,
    /// Nothing where there is no market.
    pub direction: Option<Direction>,
    pub btc_price: Double,
    pub btc_trend: MicroTrend,
    pub velocity_trend: VelocityTrend,
    pub time_remaining_secs: i64,
    pub confidence: Double,
    pub price_velocity: Double,
    pub volume_delta: Double,
    pub order_flow_ratio: Double,
    pub velocity_consistency: Double,
    pub price_acceleration: Double,
    pub missing_reason: MissingReason,
    pub threshold_mode: ThresholdMode,
    pub mins_since_last_trade: u64,
    pub active_min_edge_pct: Double,
    pub active_min_confidence: Double,
}

#[derive(Debug)]
pub enum MarketEvent {
    BtcTick(BtcTick),
    PolymarketUpdate(Btc5mMarket),
    /// A tracked market of the wider feed changed.
    PolymarketStateUpdate(PolymarketState),
    ConnectionStatus(FeedSource, ConnectionStatus),
    LatencyAlert { source: FeedSource, latency_ms: u64 },
    /// A price from a source was not accepted.
    PriceRejected { reason: PriceRejectReason, origin: PriceSource },
    MarketCycleEvent(MarketCycleEvent),
    PaperTradeOpen(PaperPosition),
    PaperTradeClose(ClosedTrade),
    /// A feed has been silent for long.
    FeedCriticalAlert { feed: String, down_secs: u64 },
    EdgeSnapshot(EdgeSnapshot),
}

} // verus!
