//! Settings of the trader, and the values that stand in for absent ones.
use vstd::prelude::*;

use crate::numeric::Double;

verus! {

pub struct AppConfig {
    pub feeds: FeedsConfig,
    pub state: StateConfig,
    pub redis: RedisConfig,
    pub logging: LoggingConfig,
    pub probability: ProbabilityConfig,
    pub edge: EdgeConfig,
    pub strategy: StrategyConfig,
    pub risk: RiskConfig,
    pub paper: PaperConfig,
    pub btc5m: Btc5mConfig,
    pub data_quality: DataQualityConfig,
}

#[derive(Debug)]
pub struct FeedsConfig {
    pub binance_ws: String,
    pub polymarket_rest: String,
    pub polymarket_ws: String,
    pub market_filter_min_secs: i64,
    pub market_filter_max_secs: i64,
    /// Keyword that a market's title has to hold, in either case.
    pub market_keyword_filter: String,
}

#[derive(Clone, Copy, Debug)]
pub struct StateConfig {
    pub btc_tick_window_secs: u64,
    pub btc_max_ticks: usize,
}

#[derive(Debug)]
pub struct RedisConfig {
    pub url: String,
    pub publish_enabled: bool,
}

#[derive(Debug)]
pub struct LoggingConfig {
    pub level: String,
    pub format: String,
}

#[derive(Clone, Copy, Debug)]
pub struct ProbabilityConfig {
    pub max_momentum_adjustment: Double,
    pub momentum_weight: Double,
    pub delta_weight: Double,
}

#[derive(Clone, Copy, Debug)]
pub struct EdgeConfig {
    pub min_edge_pct: Double,
    pub min_confidence: Double,
    pub max_spread_for_trade: Double,
    pub min_time_remaining_secs: i64,
    pub max_time_remaining_secs: i64,
    /// Seconds between two broadcasts of the edge snapshot.
    pub edge_broadcast_interval_secs: u64,
}

#[derive(Clone, Copy, Debug)]
pub struct StrategyConfig {
    /// Edge signals are logged and no trade is made.
    pub observation_mode: bool,
    pub relaxed_mode_after_mins: u64,
    pub relaxed_min_edge_pct: Double,
    pub relaxed_min_confidence: Double,
    pub relaxed_min_velocity_abs: Double,
    pub floor_mode_after_mins: u64,
    pub floor_min_edge_pct: Double,
    pub floor_min_confidence: Double,
    pub floor_entry_if_any_signal: bool,
    pub session_definition_mins: u64,
    pub divergence: DivergenceConfig,
    pub exhaustion: ExhaustionConfig,
}

#[derive(Clone, Copy, Debug)]
pub struct DivergenceConfig {
    pub enabled: bool,
    pub market_uncertainty_min: Double,
    pub market_uncertainty_max: Double,
    pub min_velocity_abs: Double,
    pub min_velocity_consistency: Double,
    pub velocity_scale: Double,
    pub delta_scale: Double,
    pub min_edge_pct: Double,
    pub min_confidence: Double,
    pub max_expected_repricing: Double,
    pub profit_target_pct: Double,
    pub stop_loss_pct: Double,
    pub exit_before_final_secs: i64,
    pub max_spread: Double,
    pub require_volume_alignment: bool,
    pub min_time_remaining_secs: i64,
    pub max_time_remaining_secs: i64,
}

#[derive(Clone, Copy, Debug)]
pub struct ExhaustionConfig {
    pub enabled: bool,
    pub min_edge_pct: Double,
    pub exhaustion_threshold: Double,
    pub velocity_taper_ratio: Double,
    pub profit_target_pct: Double,
    pub stop_loss_pct: Double,
    pub size_multiplier: Double,
    pub min_time_remaining_secs: i64,
    pub max_time_remaining_secs: i64,
}

#[derive(Clone, Copy, Debug)]
pub struct RiskConfig {
    pub max_concurrent_positions: usize,
    pub max_exposure_usd: Double,
    pub consecutive_loss_limit: u32,
    pub cooldown_after_loss_secs: u64,
    pub min_trade_interval_secs: u64,
}

#[derive(Clone, Copy, Debug)]
pub struct PaperConfig {
    pub enabled: bool,
    pub default_size_usd: Double,
    pub flag_suspicious_trades: bool,
    pub suspicious_pnl_threshold_pct: Double,
    pub suspicious_hold_max_secs: u64,
}

#[derive(Clone, Copy, Debug)]
pub struct DataQualityConfig {
    pub max_price_jump_pct_per_5s: Double,
    pub max_price_age_ms: u64,
    pub max_price_age_fallback_ms: u64,
    pub ws_min_tick_rate: Double,
    pub ws_silence_reconnect_secs: u64,
    pub ws_ping_interval_secs: u64,
}

#[derive(Debug)]
pub struct Btc5mConfig {
    pub gamma_api: String,
    pub clob_api: String,
    pub clock_sync_interval_secs: u64,
    pub final_window_secs: u64,
    pub pre_fetch_next_secs: u64,
    pub price_stale_threshold_ms: u64,
    pub market_retry_attempts: u32,
    pub market_retry_interval_secs: u64,
    pub velocity_window_10s: u64,
    pub velocity_window_5s: u64,
    pub velocity_window_15s: u64,
}

pub fn default_relaxed_mode_after_mins() -> (r: u64)
    ensures
        r == 10,
{
    10
}

pub fn default_relaxed_min_edge() -> (r: Double)
    ensures
        r == Double::ratio(25, 1000),
{
    Double::ratio(25, 1000)
}

pub fn default_relaxed_min_confidence() -> (r: Double)
    ensures
        r == Double::ratio(20, 100),
{
    Double::ratio(20, 100)
}

pub fn default_relaxed_min_velocity() -> (r: Double)
    ensures
        r == Double::ratio(5, 100),
{
    Double::ratio(5, 100)
}

pub fn default_floor_mode_after_mins() -> (r: u64)
    ensures
        r == 22,
{
    22
}

pub fn default_floor_min_edge() -> (r: Double)
    ensures
        r == Double::ratio(15, 1000),
{
    Double::ratio(15, 1000)
}

pub fn default_floor_min_confidence() -> (r: Double)
    ensures
        r == Double::ratio(15, 100),
{
    Double::ratio(15, 100)
}

pub fn default_session_definition_mins() -> (r: u64)
    ensures
        r == 30,
{
    30
}

pub fn default_exhaustion_min_edge() -> (r: Double)
    ensures
        r == Double::ratio(6, 100),
{
    Double::ratio(6, 100)
}

pub fn default_max_price_age_fallback() -> (r: u64)
    ensures
        r == 8000,
{
    8000
}

} // verus!
