//! Half-hour sessions, and thresholds that loosen while no trade is made.
use vstd::prelude::*;
use vstd::arithmetic::div_mod::{lemma_fundamental_div_mod, lemma_fundamental_div_mod_converse};

use crate::config::{AppConfig, DivergenceConfig, StrategyConfig};
use crate::numeric::Double;
use crate::numeric::order::law_ratios_keep_order;
use crate::time::{millis_of, now_millis};

verus! {

#[derive(Clone, Copy, Debug, PartialEq, Eq, Structural)]
pub enum ThresholdMode {
    Normal,
    Relaxed,
    Floor,
}

impl ThresholdMode {
    pub fn as_str(&self) -> (r: &'static str)
        ensures
            r@ == match *self {
                ThresholdMode::Normal => "NORMAL"@,
                ThresholdMode::Relaxed => "RELAXED"@,
                ThresholdMode::Floor => "FLOOR"@,
            },
    {
        match self {
            ThresholdMode::Normal => "NORMAL",
            ThresholdMode::Relaxed => "RELAXED",
            ThresholdMode::Floor => "FLOOR",
        }
    }

    pub fn emoji(&self) -> (r: &'static str)
        ensures
            r@ == match *self {
                ThresholdMode::Normal => "🟢"@,
                ThresholdMode::Relaxed => "🟡"@,
                ThresholdMode::Floor => "🔴"@,
            },
    {
        match self {
            ThresholdMode::Normal => "🟢",
            ThresholdMode::Relaxed => "🟡",
            ThresholdMode::Floor => "🔴",
        }
    }
}

/// What an entry has to reach.
#[derive(Clone, Copy, Debug)]
pub struct EntryThresholds {
    pub min_edge_pct: Double,
    pub min_confidence: Double,
    pub min_velocity_abs: Double,
    pub market_uncertainty_min: Double,
    pub market_uncertainty_max: Double,
}

#[derive(Clone, Copy, Debug)]
pub struct SessionState {
    pub session_start_ms: u64,
    pub last_trade_at_ms: Option<u64>,
    pub trades_this_session: u32,
}

/// Half an hour in milliseconds.
pub const SESSION_MS: u64 = 1_800_000;

/// The start of the half hour that a time falls into.
pub open spec fn session_start(now_ms: u64) -> u64 {
    (now_ms - now_ms % SESSION_MS) as u64
}

/// The start of the session that a time falls into: sessions begin on the hour and
/// half past it.
pub fn current_session_start_ms(now_ms: u64) -> (r: u64)
    ensures
        r == session_start(now_ms),
{
    let secs: u64 = now_ms / 1000;
    let minute_in_hour: u64 = (secs / 60) % 60;
    let hour_start_secs: u64 = (secs / 3600) * 3600;
    let session_offset_secs: u64 = if minute_in_hour < 30 {
        0
    } else {
        30 * 60
    };
    proof {
        lemma_half_hours(now_ms as int);
    }
    (hour_start_secs + session_offset_secs) * 1000
}

/// Hours and minutes of a time, in terms of half hours.
proof fn lemma_half_hours(now_ms: int)
    requires
        now_ms >= 0,
    ensures
        ({
            let secs = now_ms / 1000;
            let start = now_ms - now_ms % 1_800_000;
            if (secs / 60) % 60 < 30 {
                (secs / 3600) * 3600 * 1000 == start
            } else {
                ((secs / 3600) * 3600 + 1800) * 1000 == start
            }
        }),
{
    let h = now_ms / 3_600_000;
    let rest = now_ms % 3_600_000;
    let part = rest / 1000;
    let minutes = part / 60;
    lemma_fundamental_div_mod(now_ms, 3_600_000);
    lemma_fundamental_div_mod(rest, 1000);
    lemma_fundamental_div_mod(part, 60);
    lemma_fundamental_div_mod_converse(now_ms, 1000, 3600 * h + part, rest % 1000);
    lemma_fundamental_div_mod_converse(3600 * h + part, 3600, h, part);
    lemma_fundamental_div_mod_converse(3600 * h + part, 60, 60 * h + minutes, part % 60);
    lemma_fundamental_div_mod_converse(60 * h + minutes, 60, h, minutes);
    if minutes < 30 {
        lemma_fundamental_div_mod_converse(now_ms, 1_800_000, 2 * h, rest);
    } else {
        lemma_fundamental_div_mod_converse(now_ms, 1_800_000, 2 * h + 1, rest - 1_800_000);
    }
}

/// A session starts on a half hour, at or before the time in it, and less than half
/// an hour earlier.
pub proof fn law_time_lies_in_its_session(now_ms: u64)
    ensures
        session_start(now_ms) % SESSION_MS == 0,
        session_start(now_ms) <= now_ms < session_start(now_ms) + SESSION_MS,
{
}

impl SessionState {
    /// A session without a trade, at a time.
    pub open spec fn started_at(now_ms: u64) -> SessionState {
        SessionState {
            session_start_ms: session_start(now_ms),
            last_trade_at_ms: None,
            trades_this_session: 0,
        }
    }

    pub fn new_at(now_ms: u64) -> (r: Self)
        ensures
            r == SessionState::started_at(now_ms),
    {
        SessionState {
            session_start_ms: current_session_start_ms(now_ms),
            last_trade_at_ms: None,
            trades_this_session: 0,
        }
    }

    pub fn new() -> (r: Self)
        ensures
            exists|reading: Option<(u64, u32)>|
                r == SessionState::started_at(#[trigger] millis_of(reading)),
    {
        SessionState::new_at(now_millis())
    }

    /// The session at a later time: a new one where that falls into another half hour.
    pub open spec fn at(self, now_ms: u64) -> SessionState {
        if session_start(now_ms) != self.session_start_ms {
            SessionState::started_at(now_ms)
        } else {
            self
        }
    }

    pub fn maybe_reset_session_at(&mut self, now_ms: u64)
        ensures
            *final(self) == old(self).at(now_ms),
    {
        let boundary: u64 = current_session_start_ms(now_ms);
        if boundary != self.session_start_ms {
            self.session_start_ms = boundary;
            self.last_trade_at_ms = None;
            self.trades_this_session = 0;
        }
    }

    /// Starts a new session where the current half hour is another one.
    pub fn maybe_reset_session(&mut self)
        ensures
            exists|reading: Option<(u64, u32)>|
                *final(self) == old(self).at(#[trigger] millis_of(reading)),
    {
        self.maybe_reset_session_at(now_millis())
    }

    /// Whole minutes since the last trade, or since the session started.
    pub open spec fn idle_mins(self, now_ms: u64) -> u64 {
        let since = match self.last_trade_at_ms {
            Some(t) => t,
            None => self.session_start_ms,
        };
        if now_ms < since {
            0
        } else {
            ((now_ms - since) / 60_000) as u64
        }
    }

    pub fn mins_since_last_trade_at(&self, now_ms: u64) -> (r: u64)
        ensures
            r == self.idle_mins(now_ms),
    {
        let reference: u64 = match self.last_trade_at_ms {
            Some(t) => t,
            None => self.session_start_ms,
        };
        now_ms.saturating_sub(reference) / 60_000
    }

    pub fn mins_since_last_trade(&self) -> (r: u64)
        ensures
            exists|reading: Option<(u64, u32)>|
                r == self.idle_mins(#[trigger] millis_of(reading)),
    {
        self.mins_since_last_trade_at(now_millis())
    }

    /// The session after a trade.
    pub open spec fn after_trade(self, now_ms: u64) -> SessionState {
        SessionState {
            last_trade_at_ms: Some(now_ms),
            trades_this_session: (self.trades_this_session + 1) as u32,
            ..self
        }
    }

    pub fn on_trade_executed_at(&mut self, now_ms: u64)
        requires
            old(self).trades_this_session < u32::MAX,
        ensures
            *final(self) == old(self).after_trade(now_ms),
    {
        self.last_trade_at_ms = Some(now_ms);
        self.trades_this_session = self.trades_this_session + 1;
    }

    /// Counts a trade that was just made.
    pub fn on_trade_executed(&mut self)
        requires
            old(self).trades_this_session < u32::MAX,
        ensures
            exists|reading: Option<(u64, u32)>|
                *final(self) == old(self).after_trade(#[trigger] millis_of(reading)),
    {
        self.on_trade_executed_at(now_millis())
    }

    /// The mode for a time without trades.
    pub open spec fn mode(self, config: StrategyConfig, now_ms: u64) -> ThresholdMode {
        let mins = self.idle_mins(now_ms);
        if mins >= config.floor_mode_after_mins {
            ThresholdMode::Floor
        } else if mins >= config.relaxed_mode_after_mins {
            ThresholdMode::Relaxed
        } else {
            ThresholdMode::Normal
        }
    }

    pub fn threshold_mode_at(&self, config: &AppConfig, now_ms: u64) -> (r: ThresholdMode)
        ensures
            r == self.mode(config.strategy, now_ms),
    {
        let mins: u64 = self.mins_since_last_trade_at(now_ms);
        if mins >= config.strategy.floor_mode_after_mins {
            ThresholdMode::Floor
        } else if mins >= config.strategy.relaxed_mode_after_mins {
            ThresholdMode::Relaxed
        } else {
            ThresholdMode::Normal
        }
    }

    pub fn threshold_mode(&self, config: &AppConfig) -> (r: ThresholdMode)
        ensures
            exists|reading: Option<(u64, u32)>|
                r == self.mode(config.strategy, #[trigger] millis_of(reading)),
    {
        self.threshold_mode_at(config, now_millis())
    }

    pub fn active_thresholds_at(
        &self,
        config: &AppConfig,
        runtime_min_edge: Double,
        runtime_min_confidence: Double,
        now_ms: u64,
    ) -> (r: (ThresholdMode, EntryThresholds))
        ensures
            r.0 == self.mode(config.strategy, now_ms),
            r.1 == thresholds_of(r.0, config.strategy, runtime_min_edge, runtime_min_confidence),
    {
        let mode: ThresholdMode = self.threshold_mode_at(config, now_ms);
        let div: &DivergenceConfig = &config.strategy.divergence;
        let thresholds: EntryThresholds = match mode {
            ThresholdMode::Normal => EntryThresholds {
                min_edge_pct: runtime_min_edge,
                min_confidence: runtime_min_confidence,
                min_velocity_abs: div.min_velocity_abs,
                market_uncertainty_min: div.market_uncertainty_min,
                market_uncertainty_max: div.market_uncertainty_max,
            },
            ThresholdMode::Relaxed => EntryThresholds {
                min_edge_pct: config.strategy.relaxed_min_edge_pct,
                min_confidence: config.strategy.relaxed_min_confidence,
                min_velocity_abs: config.strategy.relaxed_min_velocity_abs,
                market_uncertainty_min: Double::ratio(30, 100),
                market_uncertainty_max: Double::ratio(70, 100),
            },
            ThresholdMode::Floor => EntryThresholds {
                min_edge_pct: config.strategy.floor_min_edge_pct,
                min_confidence: config.strategy.floor_min_confidence,
                min_velocity_abs: config.strategy.relaxed_min_velocity_abs,
                market_uncertainty_min: Double::ratio(15, 100),
                market_uncertainty_max: Double::ratio(85, 100),
            },
        };
        (mode, thresholds)
    }

    pub fn active_thresholds(
        &self,
        config: &AppConfig,
        runtime_min_edge: Double,
        runtime_min_confidence: Double,
    ) -> (r: (ThresholdMode, EntryThresholds))
        ensures
            exists|reading: Option<(u64, u32)>|
                r.0 == self.mode(config.strategy, #[trigger] millis_of(reading)),
            r.1 == thresholds_of(r.0, config.strategy, runtime_min_edge, runtime_min_confidence),
    {
        self.active_thresholds_at(config, runtime_min_edge, runtime_min_confidence, now_millis())
    }
}

/// The thresholds of a mode: in the normal one those set at run time and those of the
/// strategy, in the others looser ones.
pub open spec fn thresholds_of(
    mode: ThresholdMode,
    config: StrategyConfig,
    runtime_min_edge: Double,
    runtime_min_confidence: Double,
) -> EntryThresholds {
    match mode {
        ThresholdMode::Normal => EntryThresholds {
            min_edge_pct: runtime_min_edge,
            min_confidence: runtime_min_confidence,
            min_velocity_abs: config.divergence.min_velocity_abs,
            market_uncertainty_min: config.divergence.market_uncertainty_min,
            market_uncertainty_max: config.divergence.market_uncertainty_max,
        },
        ThresholdMode::Relaxed => EntryThresholds {
            min_edge_pct: config.relaxed_min_edge_pct,
            min_confidence: config.relaxed_min_confidence,
            min_velocity_abs: config.relaxed_min_velocity_abs,
            market_uncertainty_min: Double::ratio(30, 100),
            market_uncertainty_max: Double::ratio(70, 100),
        },
        ThresholdMode::Floor => EntryThresholds {
            min_edge_pct: config.floor_min_edge_pct,
            min_confidence: config.floor_min_confidence,
            min_velocity_abs: config.relaxed_min_velocity_abs,
            market_uncertainty_min: Double::ratio(15, 100),
            market_uncertainty_max: Double::ratio(85, 100),
        },
    }
}

/// A strategy's settings under other thresholds.
pub open spec fn under_thresholds(base: DivergenceConfig, t: EntryThresholds) -> DivergenceConfig {
    DivergenceConfig {
        min_edge_pct: t.min_edge_pct,
        min_confidence: t.min_confidence,
        min_velocity_abs: t.min_velocity_abs,
        market_uncertainty_min: t.market_uncertainty_min,
        market_uncertainty_max: t.market_uncertainty_max,
        ..base
    }
}

pub fn apply_entry_thresholds(base: &DivergenceConfig, t: &EntryThresholds) -> (r: DivergenceConfig)
    ensures
        r == under_thresholds(*base, *t),
{
    let mut c: DivergenceConfig = *base;
    c.min_edge_pct = t.min_edge_pct;
    c.min_confidence = t.min_confidence;
    c.min_velocity_abs = t.min_velocity_abs;
    c.market_uncertainty_min = t.market_uncertainty_min;
    c.market_uncertainty_max = t.market_uncertainty_max;
    c
}

/// A trade brings the mode back to normal, until the time without one reaches the limit
/// of one of the other modes.
pub proof fn law_trade_resets_mode(
    session: SessionState,
    config: StrategyConfig,
    traded_ms: u64,
    now_ms: u64,
)
    requires
        ({
            let waited = if now_ms < traded_ms {
                0
            } else {
                now_ms - traded_ms
            };
            &&& waited < 60_000 * config.relaxed_mode_after_mins
            &&& waited < 60_000 * config.floor_mode_after_mins
        }),
    ensures
        session.after_trade(traded_ms).mode(config, now_ms) == ThresholdMode::Normal,
{
}

/// A session that starts counts idle time from its own start, whatever came before.
pub proof fn law_new_session_forgets(session: SessionState, now_ms: u64)
    requires
        session_start(now_ms) != session.session_start_ms,
    ensures
        session.at(now_ms) == SessionState::started_at(now_ms),
        session.at(now_ms).idle_mins(now_ms) < 30,
{
    law_time_lies_in_its_session(now_ms);
}

/// While no trade is made within a session the mode only loosens.
pub proof fn law_mode_only_loosens(
    session: SessionState,
    config: StrategyConfig,
    now_ms: u64,
    later_ms: u64,
)
    requires
        now_ms <= later_ms,
    ensures
        session.mode(config, now_ms) == ThresholdMode::Floor ==> session.mode(config, later_ms)
            == ThresholdMode::Floor,
        session.mode(config, now_ms) == ThresholdMode::Relaxed ==> session.mode(config, later_ms)
            != ThresholdMode::Normal,
{
}

/// The mode goes by the time since the last trade, or since the session started where there
/// was none: it is at the floor from the floor's minutes on, relaxed from its own minutes up
/// to those, and normal before both.
pub proof fn law_mode_goes_by_idle_time(session: SessionState, config: StrategyConfig, now_ms: u64)
    requires
        session.last_trade_at_ms is Some ==> session.last_trade_at_ms->0 <= now_ms,
        session.last_trade_at_ms is None ==> session.session_start_ms <= now_ms,
    ensures
        ({
            let waited = now_ms - (if session.last_trade_at_ms is Some {
                session.last_trade_at_ms->0
            } else {
                session.session_start_ms
            });
            let mode = session.mode(config, now_ms);
            &&& mode == ThresholdMode::Floor <==> waited >= 60_000 * config.floor_mode_after_mins
            &&& mode == ThresholdMode::Relaxed <==> 60_000 * config.relaxed_mode_after_mins
                <= waited < 60_000 * config.floor_mode_after_mins
            &&& session.idle_mins(now_ms) * 60_000 <= waited < session.idle_mins(now_ms) * 60_000
                + 60_000
        }),
{
}

/// A session goes on within its half hour, and another half hour starts one without trades.
pub proof fn law_session_lasts_its_half_hour(session: SessionState, now_ms: u64)
    requires
        session.session_start_ms % SESSION_MS == 0,
    ensures
        session.session_start_ms <= now_ms < session.session_start_ms + SESSION_MS
            ==> session.at(now_ms) == session,
        !(session.session_start_ms <= now_ms < session.session_start_ms + SESSION_MS) ==> {
            let next = session.at(now_ms);
            &&& next.session_start_ms % SESSION_MS == 0
            &&& next.session_start_ms <= now_ms < next.session_start_ms + SESSION_MS
            &&& next.last_trade_at_ms is None
            &&& next.trades_this_session == 0
        },
{
    law_time_lies_in_its_session(now_ms);
}

/// A trade is counted and noted, and the session goes on.
pub proof fn law_trade_is_counted(session: SessionState, now_ms: u64)
    requires
        session.trades_this_session < u32::MAX,
    ensures
        session.after_trade(now_ms).trades_this_session == session.trades_this_session + 1,
        session.after_trade(now_ms).last_trade_at_ms == Some(now_ms),
        session.after_trade(now_ms).session_start_ms == session.session_start_ms,
        session.after_trade(now_ms).idle_mins(now_ms) == 0,
{
}

/// The zone in which a market counts as uncertain widens from the relaxed mode to the floor,
/// around one half; the normal mode asks for what was set, and each other mode for its own
/// minimum of edge and confidence.
pub proof fn law_zones_widen(
    config: StrategyConfig,
    runtime_min_edge: Double,
    runtime_min_confidence: Double,
)
    ensures
        ({
            let t = |mode: ThresholdMode|
                thresholds_of(mode, config, runtime_min_edge, runtime_min_confidence);
            let (n, r, f) = (
                t(ThresholdMode::Normal),
                t(ThresholdMode::Relaxed),
                t(ThresholdMode::Floor),
            );
            &&& f.market_uncertainty_min.value() < r.market_uncertainty_min.value()
            &&& r.market_uncertainty_min.value() < Double::ratio(50, 100).value()
            &&& Double::ratio(50, 100).value() < r.market_uncertainty_max.value()
            &&& r.market_uncertainty_max.value() < f.market_uncertainty_max.value()
            &&& n.min_edge_pct == runtime_min_edge
            &&& n.min_confidence == runtime_min_confidence
            &&& n.min_velocity_abs == config.divergence.min_velocity_abs
            &&& n.market_uncertainty_min == config.divergence.market_uncertainty_min
            &&& n.market_uncertainty_max == config.divergence.market_uncertainty_max
            &&& r.min_edge_pct == config.relaxed_min_edge_pct
            &&& r.min_confidence == config.relaxed_min_confidence
            &&& f.min_edge_pct == config.floor_min_edge_pct
            &&& f.min_confidence == config.floor_min_confidence
            &&& r.min_velocity_abs == config.relaxed_min_velocity_abs
            &&& f.min_velocity_abs == r.min_velocity_abs
        }),
{
    law_ratios_keep_order(15, 30, 100);
    law_ratios_keep_order(30, 50, 100);
    law_ratios_keep_order(50, 70, 100);
    law_ratios_keep_order(70, 85, 100);
}

/// Thresholds take the place of a strategy's own, and leave its other settings alone.
pub proof fn law_thresholds_replace_settings(base: DivergenceConfig, t: EntryThresholds)
    ensures
        ({
            let c = under_thresholds(base, t);
            &&& c.min_edge_pct == t.min_edge_pct
            &&& c.min_confidence == t.min_confidence
            &&& c.min_velocity_abs == t.min_velocity_abs
            &&& c.market_uncertainty_min == t.market_uncertainty_min
            &&& c.market_uncertainty_max == t.market_uncertainty_max
            &&& c.enabled == base.enabled
            &&& c.max_spread == base.max_spread
            &&& c.velocity_scale == base.velocity_scale
            &&& c.delta_scale == base.delta_scale
            &&& c.max_expected_repricing == base.max_expected_repricing
            &&& c.profit_target_pct == base.profit_target_pct
            &&& c.stop_loss_pct == base.stop_loss_pct
            &&& c.min_time_remaining_secs == base.min_time_remaining_secs
            &&& c.max_time_remaining_secs == base.max_time_remaining_secs
        }),
{
}

} // verus!
