//! Checks on a market that any entry has to pass.
use vstd::prelude::*;

use crate::config::EdgeConfig;
use crate::market_data::price_validator::elapsed_ms;
use crate::market_data::state::{MarketState, MicroTrend, PolymarketState};
use crate::numeric::Double;
use crate::numeric::order::law_integer_is_a_number;
use crate::text::{decimal, decimal_text, shows, signed_decimal, signed_text};
use crate::time::{millis_of, now_millis};

verus! {

/// The check that a market did not pass.
#[derive(Clone, Copy, Debug)]
pub enum FilterReason {
    Choppy,
    WideSpread { spread: Double, max: Double },
    LowVolume { volume: Double, min: Double },
    TooLate { secs: i64, min_secs: i64 },
    TooEarly { secs: i64, max_secs: i64 },
    Stale { age_ms: u64, max_ms: u64 },
}

impl FilterReason {
    /// The reason in words, where they show no double.
    pub open spec fn words(self) -> Option<Seq<char>> {
        match self {
            FilterReason::Choppy => Some("microtrend is Choppy"@),
            FilterReason::TooLate { secs, min_secs } => Some(
                "time "@ + signed_decimal(secs as int) + "s < min "@ + signed_decimal(
                    min_secs as int,
                ) + "s"@,
            ),
            FilterReason::TooEarly { secs, max_secs } => Some(
                "time "@ + signed_decimal(secs as int) + "s > max "@ + signed_decimal(
                    max_secs as int,
                ) + "s"@,
            ),
            FilterReason::Stale { age_ms, max_ms } => Some(
                "data stale: "@ + decimal(age_ms as nat) + "ms > "@ + decimal(max_ms as nat)
                    + "ms"@,
            ),
            _ => None,
        }
    }

    pub fn text(&self) -> (r: Option<String>)
        ensures
            shows(r, self.words()),
    {
        match *self {
            FilterReason::Choppy => Some("microtrend is Choppy".to_owned()),
            FilterReason::TooLate { secs, min_secs } => Some(
                "time ".to_owned().concat(signed_text(secs).as_str()).concat("s < min ").concat(
                    signed_text(min_secs).as_str(),
                ).concat("s"),
            ),
            FilterReason::TooEarly { secs, max_secs } => Some(
                "time ".to_owned().concat(signed_text(secs).as_str()).concat("s > max ").concat(
                    signed_text(max_secs).as_str(),
                ).concat("s"),
            ),
            FilterReason::Stale { age_ms, max_ms } => Some(
                "data stale: ".to_owned().concat(decimal_text(age_ms).as_str()).concat(
                    "ms > ",
                ).concat(decimal_text(max_ms).as_str()).concat("ms"),
            ),
            _ => None,
        }
    }
}

#[derive(Clone, Copy, Debug)]
pub struct FilterResult {
    pub passed: bool,
    pub failed_reason: Option<FilterReason>,
}

pub struct EntryFilter;

/// The oldest data that an entry may rest on, in milliseconds.
pub const MAX_STALENESS_MS: u64 = 2_000;

impl EntryFilter {
    /// The first check that a market does not pass: a clear trend, a narrow spread, a
    /// volume of five hundred dollars, time within limits, and fresh data.
    pub open spec fn failed(
        microtrend: MicroTrend,
        market: PolymarketState,
        config: EdgeConfig,
        now_ms: u64,
    ) -> Option<FilterReason> {
        let age_ms = elapsed_ms(now_ms, market.last_updated_ms);
        if microtrend == MicroTrend::Choppy {
            Some(FilterReason::Choppy)
        } else if market.spread.gt(config.max_spread_for_trade) {
            Some(
                FilterReason::WideSpread {
                    spread: market.spread,
                    max: config.max_spread_for_trade,
                },
            )
        } else if market.volume_24h.lt(Double::from_u64(500)) {
            Some(FilterReason::LowVolume { volume: market.volume_24h, min: Double::from_u64(500) })
        } else if market.time_remaining_secs < config.min_time_remaining_secs {
            Some(
                FilterReason::TooLate {
                    secs: market.time_remaining_secs,
                    min_secs: config.min_time_remaining_secs,
                },
            )
        } else if market.time_remaining_secs > config.max_time_remaining_secs {
            Some(
                FilterReason::TooEarly {
                    secs: market.time_remaining_secs,
                    max_secs: config.max_time_remaining_secs,
                },
            )
        } else if age_ms > MAX_STALENESS_MS {
            Some(FilterReason::Stale { age_ms, max_ms: MAX_STALENESS_MS })
        } else {
            None
        }
    }

    fn first_failed(
        state: &MarketState,
        market: &PolymarketState,
        config: &EdgeConfig,
        now_ms: u64,
    ) -> (r: Option<FilterReason>)
        ensures
            r == EntryFilter::failed(state.btc.microtrend, *market, *config, now_ms),
    {
        if state.btc.microtrend == MicroTrend::Choppy {
            return Some(FilterReason::Choppy);
        }
        if market.spread.gt(config.max_spread_for_trade) {
            return Some(
                FilterReason::WideSpread {
                    spread: market.spread,
                    max: config.max_spread_for_trade,
                },
            );
        }
        let min: Double = Double::from_u64(500);
        if market.volume_24h.lt(min) {
            return Some(FilterReason::LowVolume { volume: market.volume_24h, min });
        }
        if market.time_remaining_secs < config.min_time_remaining_secs {
            return Some(
                FilterReason::TooLate {
                    secs: market.time_remaining_secs,
                    min_secs: config.min_time_remaining_secs,
                },
            );
        }
        if market.time_remaining_secs > config.max_time_remaining_secs {
            return Some(
                FilterReason::TooEarly {
                    secs: market.time_remaining_secs,
                    max_secs: config.max_time_remaining_secs,
                },
            );
        }
        let age_ms: u64 = now_ms.saturating_sub(market.last_updated_ms);
        if age_ms > MAX_STALENESS_MS {
            return Some(FilterReason::Stale { age_ms, max_ms: MAX_STALENESS_MS });
        }
        None
    }

    /// Runs every check at a time; the market passes where none fails.
    pub fn passes_all_at(
        state: &MarketState,
        market: &PolymarketState,
        config: &EdgeConfig,
        now_ms: u64,
    ) -> (r: FilterResult)
        ensures
            r.failed_reason == EntryFilter::failed(
                state.btc.microtrend,
                *market,
                *config,
                now_ms,
            ),
            r.passed == (r.failed_reason is None),
    {
        let failed_reason: Option<FilterReason> = Self::first_failed(state, market, config, now_ms);
        FilterResult { passed: failed_reason.is_none(), failed_reason }
    }

    /// Runs every check now.
    pub fn passes_all(state: &MarketState, market: &PolymarketState, config: &EdgeConfig) -> (r:
        FilterResult)
        ensures
            exists|reading: Option<(u64, u32)>|
                r.failed_reason == EntryFilter::failed(
                    state.btc.microtrend,
                    *market,
                    *config,
                    #[trigger] millis_of(reading),
                ),
            r.passed == (r.failed_reason is None),
    {
        Self::passes_all_at(state, market, config, now_millis())
    }
}

/// A market passes exactly where BTC has a trend, the spread does not pass its maximum, the
/// volume reaches five hundred dollars, the time lies within both limits, and the data are at
/// most two seconds old.
pub proof fn law_entry_needs_every_check(
    microtrend: MicroTrend,
    market: PolymarketState,
    config: EdgeConfig,
    now_ms: u64,
)
    requires
        !market.spread.is_nan(),
        !config.max_spread_for_trade.is_nan(),
        !market.volume_24h.is_nan(),
    ensures
        EntryFilter::failed(microtrend, market, config, now_ms) is None <==> {
            &&& microtrend != MicroTrend::Choppy
            &&& market.spread.value() <= config.max_spread_for_trade.value()
            &&& market.volume_24h.value() >= Double::from_u64(500).value()
            &&& config.min_time_remaining_secs <= market.time_remaining_secs
                <= config.max_time_remaining_secs
            &&& now_ms <= market.last_updated_ms + 2000
        },
{
    reveal(Double::spec_lt);
    law_integer_is_a_number(500);
}

/// The check that is named as failed did fail, and every one before it was passed.
pub proof fn law_failed_check_is_named(
    microtrend: MicroTrend,
    market: PolymarketState,
    config: EdgeConfig,
    now_ms: u64,
)
    requires
        !market.spread.is_nan(),
        !config.max_spread_for_trade.is_nan(),
        !market.volume_24h.is_nan(),
    ensures
        ({
            let trend_ok = microtrend != MicroTrend::Choppy;
            let spread_ok = trend_ok && market.spread.value()
                <= config.max_spread_for_trade.value();
            let volume_ok = spread_ok && market.volume_24h.value() >= Double::from_u64(
                500,
            ).value();
            let time_ok = volume_ok && config.min_time_remaining_secs <= market.time_remaining_secs
                <= config.max_time_remaining_secs;
            match EntryFilter::failed(microtrend, market, config, now_ms) {
                Some(FilterReason::Choppy) => !trend_ok,
                Some(FilterReason::WideSpread { spread, max }) => trend_ok && !spread_ok && spread
                    == market.spread && max == config.max_spread_for_trade,
                Some(FilterReason::LowVolume { volume, min }) => spread_ok && !volume_ok && volume
                    == market.volume_24h && min == Double::from_u64(500),
                Some(FilterReason::TooLate { secs, min_secs }) => volume_ok && secs
                    == market.time_remaining_secs && min_secs == config.min_time_remaining_secs
                    && secs < min_secs,
                Some(FilterReason::TooEarly { secs, max_secs }) => volume_ok && secs
                    == market.time_remaining_secs && max_secs == config.max_time_remaining_secs
                    && secs > max_secs,
                Some(FilterReason::Stale { age_ms, max_ms }) => time_ok && max_ms == 2000
                    && age_ms > 2000 && now_ms == market.last_updated_ms + age_ms,
                None => time_ok,
            }
        }),
{
    reveal(Double::spec_lt);
    law_integer_is_a_number(500);
}

} // verus!
