//! Whether an expected repricing is worth a trade.
use vstd::prelude::*;

use crate::config::DivergenceConfig;
use crate::numeric::Double;
use crate::text::{shows, signed_decimal, signed_text};

verus! {

/// The outcome that a trade bets on.
#[derive(Clone, Copy, Debug, PartialEq, Eq, Structural)]
pub enum Direction {
    Yes,
    No,
}

impl Direction {
    pub fn as_str(&self) -> (r: &'static str)
        ensures
            r@ == match *self {
                Direction::Yes => "YES"@,
                Direction::No => "NO"@,
            },
    {
        match self {
            Direction::Yes => "YES",
            Direction::No => "NO",
        }
    }
}

/// Why an edge is not worth a trade.
#[derive(Clone, Copy, Debug)]
pub enum EdgeReason {
    /// The price is out of the zone in which the market is uncertain.
    OutsideUncertainty { yes_price: Double, min: Double, max: Double },
    LowEdge { edge: Double, min: Double },
    LowConfidence { confidence: Double, min: Double },
    WideSpread { spread: Double, max: Double },
    TooLate { secs: i64, min_secs: i64 },
    TooEarly { secs: i64, max_secs: i64 },
}

impl EdgeReason {
    /// The reason in words, where they show no double.
    pub open spec fn words(self) -> Option<Seq<char>> {
        match self {
            EdgeReason::TooLate { secs, min_secs } => Some(
                "time "@ + signed_decimal(secs as int) + "s < min "@ + signed_decimal(
                    min_secs as int,
                ) + "s"@,
            ),
            EdgeReason::TooEarly { secs, max_secs } => Some(
                "time "@ + signed_decimal(secs as int) + "s > max "@ + signed_decimal(
                    max_secs as int,
                ) + "s"@,
            ),
            _ => None,
        }
    }

    pub fn text(&self) -> (r: Option<String>)
        ensures
            shows(r, self.words()),
    {
        match *self {
            EdgeReason::TooLate { secs, min_secs } => Some(
                "time ".to_owned().concat(signed_text(secs).as_str()).concat("s < min ").concat(
                    signed_text(min_secs).as_str(),
                ).concat("s"),
            ),
            EdgeReason::TooEarly { secs, max_secs } => Some(
                "time ".to_owned().concat(signed_text(secs).as_str()).concat("s > max ").concat(
                    signed_text(max_secs).as_str(),
                ).concat("s"),
            ),
            _ => None,
        }
    }
}

/// The edge of a possible trade.
#[derive(Clone, Copy, Debug)]
pub struct EdgeScore {
    pub direction: Direction,
    /// The repricing that a trade is expected to capture.
    pub edge_pct: Double,
    pub confidence: Double,
    pub tradeable: bool,
    /// Set where the edge is not tradeable.
    pub reason: Option<EdgeReason>,
}

/// The first gate that an edge does not pass.
pub open spec fn failed_gate(
    expected_repricing: Double,
    yes_price: Double,
    spread: Double,
    time_remaining_secs: i64,
    confidence: Double,
    config: DivergenceConfig,
) -> Option<EdgeReason> {
    if yes_price.lt(config.market_uncertainty_min) || yes_price.gt(config.market_uncertainty_max) {
        Some(
            EdgeReason::OutsideUncertainty {
                yes_price,
                min: config.market_uncertainty_min,
                max: config.market_uncertainty_max,
            },
        )
    } else if expected_repricing.lt(config.min_edge_pct) {
        Some(EdgeReason::LowEdge { edge: expected_repricing, min: config.min_edge_pct })
    } else if confidence.lt(config.min_confidence) {
        Some(EdgeReason::LowConfidence { confidence, min: config.min_confidence })
    } else if spread.gt(config.max_spread) {
        Some(EdgeReason::WideSpread { spread, max: config.max_spread })
    } else if time_remaining_secs < config.min_time_remaining_secs {
        Some(EdgeReason::TooLate { secs: time_remaining_secs, min_secs: config.min_time_remaining_secs })
    } else if time_remaining_secs > config.max_time_remaining_secs {
        Some(
            EdgeReason::TooEarly { secs: time_remaining_secs, max_secs: config.max_time_remaining_secs },
        )
    } else {
        None
    }
}

/// The score of an expected repricing, tradeable where it passes every gate.
pub open spec fn scored(
    expected_repricing: Double,
    direction: Direction,
    yes_price: Double,
    spread: Double,
    time_remaining_secs: i64,
    confidence: Double,
    config: DivergenceConfig,
) -> EdgeScore {
    let gate = failed_gate(
        expected_repricing,
        yes_price,
        spread,
        time_remaining_secs,
        confidence,
        config,
    );
    EdgeScore {
        direction,
        edge_pct: expected_repricing,
        confidence,
        tradeable: gate is None,
        reason: gate,
    }
}

/// Scores an expected repricing: it is tradeable where it passes every gate, and
/// names the first one that it does not pass.
pub fn score_edge(
    expected_repricing: Double,
    direction: Direction,
    yes_price: Double,
    _no_price: Double,
    spread: Double,
    time_remaining_secs: i64,
    confidence: Double,
    config: &DivergenceConfig,
) -> (r: EdgeScore)
    ensures
        r == scored(
            expected_repricing,
            direction,
            yes_price,
            spread,
            time_remaining_secs,
            confidence,
            *config,
        ),
{
    let reason: Option<EdgeReason> = if yes_price.lt(config.market_uncertainty_min)
        || yes_price.gt(config.market_uncertainty_max) {
        Some(
            EdgeReason::OutsideUncertainty {
                yes_price,
                min: config.market_uncertainty_min,
                max: config.market_uncertainty_max,
            },
        )
    } else if expected_repricing.lt(config.min_edge_pct) {
        Some(EdgeReason::LowEdge { edge: expected_repricing, min: config.min_edge_pct })
    } else if confidence.lt(config.min_confidence) {
        Some(EdgeReason::LowConfidence { confidence, min: config.min_confidence })
    } else if spread.gt(config.max_spread) {
        Some(EdgeReason::WideSpread { spread, max: config.max_spread })
    } else if time_remaining_secs < config.min_time_remaining_secs {
        Some(EdgeReason::TooLate { secs: time_remaining_secs, min_secs: config.min_time_remaining_secs })
    } else if time_remaining_secs > config.max_time_remaining_secs {
        Some(
            EdgeReason::TooEarly { secs: time_remaining_secs, max_secs: config.max_time_remaining_secs },
        )
    } else {
        None
    };
    EdgeScore {
        direction,
        edge_pct: expected_repricing,
        confidence,
        tradeable: reason.is_none(),
        reason,
    }
}

/// The limits of settings are numbers.
pub open spec fn limits_are_numbers(config: DivergenceConfig) -> bool {
    &&& !config.market_uncertainty_min.is_nan()
    &&& !config.market_uncertainty_max.is_nan()
    &&& !config.min_edge_pct.is_nan()
    &&& !config.min_confidence.is_nan()
    &&& !config.max_spread.is_nan()
}

/// An edge is tradeable exactly where the YES price lies in the uncertainty zone, the
/// repricing and the confidence reach their minimum, the spread does not pass its maximum
/// and the time lies within both limits; otherwise there is a reason. The score carries what
/// it was made from.
pub proof fn law_tradeable_edge_keeps_every_limit(
    expected_repricing: Double,
    direction: Direction,
    yes_price: Double,
    spread: Double,
    time_remaining_secs: i64,
    confidence: Double,
    config: DivergenceConfig,
)
    requires
        limits_are_numbers(config),
        !expected_repricing.is_nan(),
        !yes_price.is_nan(),
        !spread.is_nan(),
        !confidence.is_nan(),
    ensures
        ({
            let s = scored(
                expected_repricing,
                direction,
                yes_price,
                spread,
                time_remaining_secs,
                confidence,
                config,
            );
            &&& s.tradeable <==> {
                &&& config.market_uncertainty_min.value() <= yes_price.value()
                    <= config.market_uncertainty_max.value()
                &&& config.min_edge_pct.value() <= expected_repricing.value()
                &&& config.min_confidence.value() <= confidence.value()
                &&& spread.value() <= config.max_spread.value()
                &&& config.min_time_remaining_secs <= time_remaining_secs
                    <= config.max_time_remaining_secs
            }
            &&& s.tradeable <==> s.reason is None
            &&& s.direction == direction
            &&& s.edge_pct == expected_repricing
            &&& s.confidence == confidence
        }),
{
    reveal(Double::spec_lt);
}

/// The reason that an edge is not tradeable is true of it, and every gate before the one
/// that it names was passed.
pub proof fn law_failed_gate_is_named(
    expected_repricing: Double,
    direction: Direction,
    yes_price: Double,
    spread: Double,
    time_remaining_secs: i64,
    confidence: Double,
    config: DivergenceConfig,
)
    requires
        limits_are_numbers(config),
        !expected_repricing.is_nan(),
        !yes_price.is_nan(),
        !spread.is_nan(),
        !confidence.is_nan(),
    ensures
        ({
            let reason = scored(
                expected_repricing,
                direction,
                yes_price,
                spread,
                time_remaining_secs,
                confidence,
                config,
            ).reason;
            let in_zone = config.market_uncertainty_min.value() <= yes_price.value()
                <= config.market_uncertainty_max.value();
            let edge_ok = config.min_edge_pct.value() <= expected_repricing.value();
            let confidence_ok = config.min_confidence.value() <= confidence.value();
            let spread_ok = spread.value() <= config.max_spread.value();
            match reason {
                Some(EdgeReason::OutsideUncertainty { yes_price: p, min, max }) => {
                    &&& !in_zone
                    &&& p == yes_price
                    &&& min == config.market_uncertainty_min
                    &&& max == config.market_uncertainty_max
                },
                Some(EdgeReason::LowEdge { edge, min }) => {
                    &&& in_zone && !edge_ok
                    &&& edge == expected_repricing
                    &&& min == config.min_edge_pct
                },
                Some(EdgeReason::LowConfidence { confidence: c, min }) => {
                    &&& in_zone && edge_ok && !confidence_ok
                    &&& c == confidence
                    &&& min == config.min_confidence
                },
                Some(EdgeReason::WideSpread { spread: s, max }) => {
                    &&& in_zone && edge_ok && confidence_ok && !spread_ok
                    &&& s == spread
                    &&& max == config.max_spread
                },
                Some(EdgeReason::TooLate { secs, min_secs }) => {
                    &&& in_zone && edge_ok && confidence_ok && spread_ok
                    &&& secs == time_remaining_secs < min_secs == config.min_time_remaining_secs
                },
                Some(EdgeReason::TooEarly { secs, max_secs }) => {
                    &&& in_zone && edge_ok && confidence_ok && spread_ok
                    &&& secs == time_remaining_secs > max_secs == config.max_time_remaining_secs
                },
                None => in_zone && edge_ok && confidence_ok && spread_ok,
            }
        }),
{
    reveal(Double::spec_lt);
}

} // verus!
