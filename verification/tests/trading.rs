use polytrade::config::{
    default_exhaustion_min_edge, default_floor_min_confidence, default_floor_min_edge,
    default_floor_mode_after_mins, default_max_price_age_fallback, default_relaxed_min_confidence,
    default_relaxed_min_edge, default_relaxed_min_velocity, default_relaxed_mode_after_mins,
    default_session_definition_mins, AppConfig, Btc5mConfig, DataQualityConfig, DivergenceConfig,
    EdgeConfig, ExhaustionConfig, FeedsConfig, LoggingConfig, PaperConfig, ProbabilityConfig,
    RedisConfig, RiskConfig, StateConfig, StrategyConfig,
};
use polytrade::events::bus::{ConnectionStatus, FeedSource, MarketEvent, MissingReason};
use polytrade::market_data::price_validator::{PriceRejectReason, PriceSource};
use polytrade::market_data::state::{
    Btc5mMarket, BtcTick, MarketPhase, MarketState, MicroTrend, PolymarketState, TradeSide,
};
use polytrade::numeric::Double;
use polytrade::paper::simulator::{
    ClosedTrade, PaperSimulator, PaperTradeValidator, SuspicionReason, TradeValidity,
};
use polytrade::paper::stats::{tally, PaperStats};
use polytrade::probability::edge::{Direction, EdgeReason, EdgeScore};
use polytrade::risk::engine::{RiskEngine, RiskReason};
use polytrade::storage::redis::{
    dispatch, edge_snapshot_fields, settings_fields, signal_fields, stats_fields, EventTexts,
    Field, RedisCommand,
};
use polytrade::strategy::divergence::DivergenceStrategy;
use polytrade::strategy::engine::{
    edge_snapshot_at, evaluate_all, evaluate_all_at, evaluate_signals_at, EngineTimers, Gate,
    PolledConfig, Reply, RuntimeConfig, SignalOutcome, StrategyEngine,
};
use polytrade::strategy::exhaustion::ExhaustionStrategy;
use polytrade::strategy::failed_breakout::FailedBreakoutStrategy;
use polytrade::strategy::filters::{EntryFilter, FilterReason};
use polytrade::strategy::session::{
    apply_entry_thresholds, current_session_start_ms, SessionState, ThresholdMode,
};
use polytrade::strategy::traits::{ExitReason, SignalReason, Strategy, TradeSignal};

fn d(x: f64) -> Double {
    Double::from_bits(x.to_bits())
}

fn f(x: Double) -> f64 {
    f64::from_bits(x.to_bits())
}

fn config() -> AppConfig {
    AppConfig {
        feeds: FeedsConfig {
            binance_ws: String::new(),
            polymarket_rest: String::new(),
            polymarket_ws: String::new(),
            market_filter_min_secs: 0,
            market_filter_max_secs: 300,
            market_keyword_filter: String::new(),
        },
        state: StateConfig { btc_tick_window_secs: 60, btc_max_ticks: 100 },
        redis: RedisConfig { url: String::new(), publish_enabled: false },
        logging: LoggingConfig { level: String::new(), format: String::new() },
        probability: ProbabilityConfig {
            max_momentum_adjustment: d(0.1),
            momentum_weight: d(0.6),
            delta_weight: d(0.4),
        },
        edge: EdgeConfig {
            min_edge_pct: d(0.03),
            min_confidence: d(0.3),
            max_spread_for_trade: d(0.04),
            min_time_remaining_secs: 60,
            max_time_remaining_secs: 280,
            edge_broadcast_interval_secs: 5,
        },
        strategy: StrategyConfig {
            observation_mode: false,
            relaxed_mode_after_mins: 10,
            relaxed_min_edge_pct: d(0.025),
            relaxed_min_confidence: d(0.2),
            relaxed_min_velocity_abs: d(0.05),
            floor_mode_after_mins: 22,
            floor_min_edge_pct: d(0.015),
            floor_min_confidence: d(0.15),
            floor_entry_if_any_signal: false,
            session_definition_mins: 30,
            divergence: DivergenceConfig {
                enabled: true,
                market_uncertainty_min: d(0.35),
                market_uncertainty_max: d(0.65),
                min_velocity_abs: d(0.1),
                min_velocity_consistency: d(0.5),
                velocity_scale: d(2.0),
                delta_scale: d(10.0),
                min_edge_pct: d(0.03),
                min_confidence: d(0.3),
                max_expected_repricing: d(0.1),
                profit_target_pct: d(0.05),
                stop_loss_pct: d(0.03),
                exit_before_final_secs: 20,
                max_spread: d(0.04),
                require_volume_alignment: true,
                min_time_remaining_secs: 60,
                max_time_remaining_secs: 280,
            },
            exhaustion: ExhaustionConfig {
                enabled: true,
                min_edge_pct: d(0.06),
                exhaustion_threshold: d(0.75),
                velocity_taper_ratio: d(0.6),
                profit_target_pct: d(0.05),
                stop_loss_pct: d(0.03),
                size_multiplier: d(0.5),
                min_time_remaining_secs: 60,
                max_time_remaining_secs: 280,
            },
        },
        risk: RiskConfig {
            max_concurrent_positions: 2,
            max_exposure_usd: d(10.0),
            consecutive_loss_limit: 2,
            cooldown_after_loss_secs: 60,
            min_trade_interval_secs: 30,
        },
        paper: PaperConfig {
            enabled: true,
            default_size_usd: d(1.0),
            flag_suspicious_trades: true,
            suspicious_pnl_threshold_pct: d(50.0),
            suspicious_hold_max_secs: 30,
        },
        btc5m: Btc5mConfig {
            gamma_api: String::new(),
            clob_api: String::new(),
            clock_sync_interval_secs: 60,
            final_window_secs: 30,
            pre_fetch_next_secs: 60,
            price_stale_threshold_ms: 10_000,
            market_retry_attempts: 3,
            market_retry_interval_secs: 2,
            velocity_window_10s: 10,
            velocity_window_5s: 5,
            velocity_window_15s: 15,
        },
        data_quality: DataQualityConfig {
            max_price_jump_pct_per_5s: d(0.15),
            max_price_age_ms: 3_000,
            max_price_age_fallback_ms: 8_000,
            ws_min_tick_rate: d(0.1),
            ws_silence_reconnect_secs: 15,
            ws_ping_interval_secs: 10,
        },
    }
}

const NOW: u64 = 1_748_824_000_000;

fn market(yes: f64) -> Btc5mMarket {
    Btc5mMarket {
        slug: "m1".to_string(),
        condition_id: "0xc".to_string(),
        yes_token_id: "ty".to_string(),
        no_token_id: "tn".to_string(),
        question: "BTC up?".to_string(),
        window_start_unix: 1748823600,
        window_end_unix: 1748823900,
        phase: MarketPhase::Active,
        yes_price: d(yes),
        no_price: d(1.0 - yes),
        spread: d(0.01),
        volume_24h: d(100.0),
        time_remaining_secs: 200,
        last_fetched_ms: NOW - 100,
        price_source: "WebSocketLive".to_string(),
    }
}

/// A market in which everything speaks for an entry.
fn rising() -> MarketState {
    let mut s = MarketState::default();
    s.btc.price = d(67000.0);
    s.btc.price_velocity = d(1.5);
    s.btc.volume_delta = d(8.0);
    s.btc.microtrend = MicroTrend::Bullish;
    s.btc.order_flow_ratio = d(0.7);
    s.btc.velocity_consistency = d(0.9);
    s.btc.price_acceleration = d(0.1);
    s.btc5m_market = Some(market(0.55));
    s
}

fn signal(id: &str, direction: Direction, entry: f64, size: f64) -> TradeSignal {
    TradeSignal {
        strategy_name: "divergence".to_string(),
        market_id: id.to_string(),
        direction,
        target_entry_price: d(entry),
        target_exit_price: d(entry + 0.05),
        size_usd: d(size),
        confidence: d(0.5),
        edge_pct: d(0.04),
        signal_reason: SignalReason::Exhaustion {
            yes_price: d(0.5),
            no_price: d(0.5),
            velocity_5s: d(0.0),
            velocity_15s: d(0.0),
        },
        signal_at_ms: NOW,
        profit_target_pct: d(0.05),
        stop_loss_pct: d(0.03),
        exit_before_final_secs: 20,
        price_age_ms: 0,
        price_source: String::new(),
    }
}

fn trade(id: &str, direction: Direction, pnl: f64, suspicious: bool) -> ClosedTrade {
    ClosedTrade {
        market_id: id.to_string(),
        direction,
        entry_price: d(0.5),
        exit_price: d(0.5),
        size_usd: d(1.0),
        pnl_usd: d(pnl),
        pnl_pct: d(pnl * 100.0),
        hold_duration_ms: 4_000,
        exit_reason: ExitReason::StopLoss,
        strategy_name: "divergence".to_string(),
        edge_pct: d(0.04),
        is_suspicious: suspicious,
        suspicious_reason: None,
    }
}

#[test]
fn a_position_is_opened_from_a_signal() {
    let mut s = PaperSimulator::new();
    let p = s.open_position_at(&signal("m1", Direction::Yes, 0.5, 2.0), NOW);
    assert_eq!(f(p.share_qty), 4.0);
    assert_eq!(p.entry_at_ms, NOW);
    assert!(s.has_position("m1"));
    assert!(!s.has_position("m2"));
    s.open_position_at(&signal("m2", Direction::No, 0.0, 3.0), NOW);
    assert_eq!(f(s.total_exposure_usd()), 5.0);
    assert_eq!(f(s.positions[1].share_qty), 0.0);
    s.open_position_at(&signal("m1", Direction::No, 0.4, 1.0), NOW);
    assert_eq!(s.positions.len(), 2);
    assert!(s.open_position(&signal("m3", Direction::No, 0.4, 1.0)).entry_at_ms > 0);
}

fn exit(entry: f64, yes: f64, secs: i64, phase: MarketPhase) -> Option<ClosedTrade> {
    let cfg = config();
    let mut s = PaperSimulator::new();
    s.open_position_at(&signal("m1", Direction::Yes, entry, 1.0), NOW - 40_000);
    let mut state = rising();
    let m = state.btc5m_market.as_mut().unwrap();
    m.yes_price = d(yes);
    m.time_remaining_secs = secs;
    m.phase = phase;
    let mut closed = s.evaluate_exits_at(&state, &cfg, NOW);
    assert_eq!(closed.len() + s.positions.len(), 1);
    assert_eq!(closed.len(), s.closed_trades.len());
    closed.pop()
}

#[test]
fn positions_are_left_at_a_target_a_stop_or_in_time() {
    let t = exit(0.5, 0.6, 200, MarketPhase::Active).unwrap();
    assert!(t.exit_reason == ExitReason::ProfitTarget);
    assert_eq!(f(t.pnl_usd), (0.6 - 0.5) * 2.0);
    assert_eq!(f(t.pnl_pct), (0.6 - 0.5) / 0.5 * 100.0);
    assert_eq!(t.hold_duration_ms, 40_000);
    assert!(exit(0.5, 0.4, 200, MarketPhase::Active).unwrap().exit_reason == ExitReason::StopLoss);
    assert!(exit(0.5, 0.51, 20, MarketPhase::Active).unwrap().exit_reason == ExitReason::TimeExit);
    assert!(exit(0.5, 0.51, 99, MarketPhase::Final).unwrap().exit_reason == ExitReason::TimeExit);
    assert!(exit(0.5, 0.51, 99, MarketPhase::Active).is_none());
    assert_eq!(ExitReason::EdgeGone.as_str(), "EdgeGone");
}

#[test]
fn a_position_in_another_market_is_left_at_its_entry() {
    let cfg = config();
    let mut s = PaperSimulator::new();
    s.open_position_at(&signal("old", Direction::No, 0.4, 1.0), NOW);
    let closed = s.evaluate_exits_at(&rising(), &cfg, NOW);
    assert_eq!(f(closed[0].pnl_usd), 0.0);
    assert!(closed[0].exit_reason == ExitReason::TimeExit);
    assert_eq!(s.win_count, 1);
    assert_eq!(f(s.win_rate()), 100.0);
    assert!(s.evaluate_exits(&rising(), &cfg).is_empty());
}

#[test]
fn suspicious_trades_do_not_count() {
    let cfg = config();
    let mut s = PaperSimulator::new();
    s.open_position_at(&signal("m1", Direction::Yes, 0.3, 1.0), NOW - 10_000);
    let mut state = rising();
    state.btc5m_market.as_mut().unwrap().yes_price = d(0.6);
    let closed = s.evaluate_exits_at(&state, &cfg, NOW);
    assert!(closed[0].is_suspicious);
    assert!(matches!(
        closed[0].suspicious_reason,
        Some(SuspicionReason::FastPnl { hold_secs: 10, .. })
    ));
    assert_eq!(s.win_count + s.loss_count, 0);
    assert_eq!(f(s.win_rate()), 0.0);
    assert_eq!(f(s.total_pnl_usd), 0.0);
}

#[test]
fn extreme_entries_are_suspicious() {
    let v = PaperTradeValidator {
        max_realistic_pnl_pct: d(50.0),
        max_hold_to_profit_ratio: d(30.0),
    };
    let mut t = trade("m", Direction::Yes, 0.1, false);
    assert!(matches!(v.validate_closed_trade(&t), TradeValidity::Valid));
    t.entry_price = d(0.97);
    assert!(matches!(
        v.validate_closed_trade(&t),
        TradeValidity::Suspicious { reason: SuspicionReason::ExtremeEntry { .. } }
    ));
}

#[test]
fn totals_are_drawn_up() {
    let mut s = PaperSimulator::new();
    s.closed_trades = vec![
        trade("a", Direction::Yes, 0.5, false),
        trade("b", Direction::No, -0.25, false),
        trade("c", Direction::Yes, 9.0, true),
        trade("d", Direction::No, 1.5, false),
    ];
    let t = tally(&s.closed_trades).unwrap();
    assert_eq!(t.win_count + t.loss_count + t.suspicious_count, 4);
    let p = PaperStats::compute(&s, &RiskEngine::new(config().risk)).unwrap();
    assert_eq!(f(p.total_pnl), 1.75);
    assert_eq!((p.win_count, p.loss_count, p.trade_count, p.suspicious_count), (2, 1, 3, 1));
    assert_eq!(f(p.avg_win), 1.0);
    assert_eq!(f(p.avg_loss), -0.25);
    assert_eq!(f(p.best_trade), 1.5);
    assert_eq!(f(p.worst_trade), -0.25);
    assert_eq!(f(p.avg_hold_secs), 4.0);
    assert_eq!((p.yes_trades, p.yes_wins, p.no_trades, p.no_wins), (1, 1, 2, 1));
    let fields = stats_fields(&p);
    assert_eq!(fields.len(), 18);
    assert_eq!(fields[0].0, "total_pnl");
    assert!(matches!(fields[3].1, Field::Count(3)));
    let empty = PaperStats::compute(&PaperSimulator::new(), &RiskEngine::new(config().risk));
    assert_eq!(f(empty.unwrap().avg_hold_secs), 0.0);
}

#[test]
fn risk_limits_block_entries() {
    let mut s = PaperSimulator::new();
    let r = RiskEngine::new(config().risk);
    assert!(r.check_allowed_at("m1", &s, NOW).allowed);
    assert!(r.check_allowed("m1", &s).allowed);
    s.open_position_at(&signal("a", Direction::Yes, 0.5, 10.0), NOW);
    match r.check_allowed_at("m1", &s, NOW).reason {
        Some(RiskReason::MaxExposure { max_usd, exposure_usd }) => {
            assert_eq!((f(max_usd), f(exposure_usd)), (10.0, 10.0));
        }
        _ => panic!(),
    }
    s.open_position_at(&signal("b", Direction::Yes, 0.5, 1.0), NOW);
    assert!(matches!(
        r.check_allowed_at("m1", &s, NOW).reason,
        Some(RiskReason::MaxPositions { max: 2 })
    ));
}

#[test]
fn losses_lead_to_a_cooldown() {
    let s = PaperSimulator::new();
    let mut r = RiskEngine::new(config().risk);
    r.record_close_at(&trade("m1", Direction::Yes, -1.0, false), NOW);
    assert!(r.check_allowed_at("m2", &s, NOW).allowed);
    match r.check_allowed_at("m1", &s, NOW + 5_000).reason {
        Some(RiskReason::MinInterval { elapsed_secs: 5, min_secs: 30 }) => {}
        _ => panic!(),
    }
    assert!(r.check_allowed_at("m1", &s, NOW + 30_000).allowed);
    assert!(r.cooldown_is_in_range(NOW));
    r.record_close_at(&trade("m1", Direction::Yes, -1.0, false), NOW + 1_000);
    assert!(matches!(
        r.check_allowed_at("m2", &s, NOW + 2_000).reason,
        Some(RiskReason::Cooldown { remaining_secs: 59, consecutive_losses: 2 })
    ));
    assert!(r.check_allowed_at("m2", &s, NOW + 61_000).allowed);
    r.record_close_at(&trade("m1", Direction::Yes, 1.0, false), NOW + 3_000);
    assert_eq!(r.consecutive_losses, 0);
    assert!(r.cooldown_until_ms.is_none());
    assert!(r.record_close(&trade("m1", Direction::Yes, -1.0, false)));
    let last = vec![trade("z", Direction::No, -1.0, false)];
    assert!(r.has_room_for(&last, NOW));
    r.record_closes_at(&last, NOW);
    assert_eq!(r.consecutive_losses, 2);
}

#[test]
fn only_a_loss_at_the_limit_needs_room_for_a_cooldown() {
    let mut limits = config().risk;
    limits.cooldown_after_loss_secs = u64::MAX;
    let mut r = RiskEngine::new(limits);
    assert!(!r.cooldown_is_in_range(NOW));
    let win = || trade("w", Direction::Yes, 1.0, false);
    let loss = || trade("l", Direction::Yes, -1.0, false);
    assert!(r.has_room_for(&vec![loss(), win(), loss()], NOW));
    assert!(!r.has_room_for(&vec![win(), loss(), loss()], NOW));
    r.record_closes_at(&vec![loss(), win(), loss()], NOW);
    assert_eq!(r.consecutive_losses, 1);
    assert!(!r.record_close(&loss()));
    assert_eq!(r.consecutive_losses, 1);
    assert!(r.record_close(&win()));
    assert_eq!(r.consecutive_losses, 0);
}

#[test]
fn sessions_last_half_an_hour() {
    assert_eq!(current_session_start_ms(1_748_824_000_000), 1_748_822_400_000);
    assert_eq!(current_session_start_ms(1_748_824_199_999), 1_748_822_400_000);
    assert_eq!(current_session_start_ms(1_748_824_200_000), 1_748_824_200_000);
    let cfg = config();
    let mut s = SessionState::new_at(1_748_822_400_000);
    assert_eq!(s.mins_since_last_trade_at(1_748_822_400_000 + 9 * 60_000), 9);
    let at = |s: &SessionState, mins: u64| {
        s.threshold_mode_at(&cfg, 1_748_822_400_000 + mins * 60_000)
    };
    assert!(at(&s, 9) == ThresholdMode::Normal);
    assert!(at(&s, 10) == ThresholdMode::Relaxed);
    assert!(at(&s, 22) == ThresholdMode::Floor);
    s.on_trade_executed_at(1_748_822_400_000 + 22 * 60_000);
    assert_eq!(s.trades_this_session, 1);
    assert!(at(&s, 23) == ThresholdMode::Normal);
    s.maybe_reset_session_at(1_748_822_400_000 + 25 * 60_000);
    assert_eq!(s.trades_this_session, 1);
    s.maybe_reset_session_at(1_748_822_400_000 + 31 * 60_000);
    assert_eq!(s.trades_this_session, 0);
    assert!(s.last_trade_at_ms.is_none());
    assert_eq!(ThresholdMode::Floor.as_str(), "FLOOR");
    assert_eq!(ThresholdMode::Normal.emoji(), "🟢");
}

#[test]
fn the_clock_drives_a_session() {
    let cfg = config();
    let mut s = SessionState::new();
    s.maybe_reset_session();
    s.on_trade_executed();
    assert_eq!(s.mins_since_last_trade(), 0);
    assert!(s.threshold_mode(&cfg) == ThresholdMode::Normal);
    assert!(s.active_thresholds(&cfg, d(0.1), d(0.2)).0 == ThresholdMode::Normal);
}

#[test]
fn a_trade_resets_the_mode_until_a_limit() {
    let cfg = config();
    let mut s = SessionState::new_at(1_748_822_400_000);
    let traded = 1_748_822_400_000 + 25 * 60_000;
    assert!(s.threshold_mode_at(&cfg, traded) == ThresholdMode::Floor);
    s.on_trade_executed_at(traded);
    for wait in [0, 1, 60_000, 10 * 60_000 - 1] {
        assert!(s.threshold_mode_at(&cfg, traded + wait) == ThresholdMode::Normal);
    }
    assert!(s.threshold_mode_at(&cfg, traded - 1) == ThresholdMode::Normal);
    assert!(s.threshold_mode_at(&cfg, traded + 10 * 60_000) == ThresholdMode::Relaxed);
}

#[test]
fn thresholds_loosen_with_the_mode() {
    let cfg = config();
    let s = SessionState::new_at(1_748_822_400_000);
    let at = |mins: u64| {
        s.active_thresholds_at(&cfg, d(0.08), d(0.4), 1_748_822_400_000 + mins * 60_000).1
    };
    assert_eq!(f(at(0).min_edge_pct), 0.08);
    assert_eq!(f(at(0).market_uncertainty_min), 0.35);
    assert_eq!(f(at(15).min_edge_pct), 0.025);
    assert_eq!(f(at(15).market_uncertainty_max), 0.70);
    assert_eq!(f(at(25).min_confidence), 0.15);
    assert_eq!(f(at(25).market_uncertainty_min), 0.15);
    let c = apply_entry_thresholds(&cfg.strategy.divergence, &at(15));
    assert_eq!(f(c.min_velocity_abs), 0.05);
    assert_eq!(f(c.max_spread), 0.04);
}

#[test]
fn defaults_stand_in_for_absent_settings() {
    assert_eq!(default_relaxed_mode_after_mins(), 10);
    assert_eq!(f(default_relaxed_min_edge()), 0.025);
    assert_eq!(f(default_relaxed_min_confidence()), 0.20);
    assert_eq!(f(default_relaxed_min_velocity()), 0.05);
    assert_eq!(default_floor_mode_after_mins(), 22);
    assert_eq!(f(default_floor_min_edge()), 0.015);
    assert_eq!(f(default_floor_min_confidence()), 0.15);
    assert_eq!(default_session_definition_mins(), 30);
    assert_eq!(f(default_exhaustion_min_edge()), 0.06);
    assert_eq!(default_max_price_age_fallback(), 8000);
}

fn engine_tick(engine: &mut StrategyEngine, state: &MarketState, cfg: &AppConfig, now: u64) -> Gate {
    let report = engine.tick(state, cfg, now);
    match report.evaluation {
        Some(e) => e.gate,
        None => {
            assert!(report.snapshot.is_none());
            Gate::NoData
        }
    }
}

#[test]
fn the_engine_enters_and_leaves() {
    let cfg = config();
    let mut engine = StrategyEngine::new_at(&cfg, NOW);
    engine.session.last_trade_at_ms = Some(NOW - 60_000);
    let state = rising();
    let report = engine.tick(&state, &cfg, NOW);
    assert!(report.mode_change.is_none());
    let ts = report.snapshot.unwrap();
    assert_eq!(f(ts.estimate.divergence_score), 0.75 * 0.55 + 0.8 * 0.45);
    assert!(matches!(ts.missing_reason, MissingReason::Nothing));
    let e = report.evaluation.unwrap();
    assert!(e.gate == Gate::Open);
    assert!(matches!(e.outcomes[0], SignalOutcome::Opened));
    assert_eq!(e.opened.len(), 1);
    assert_eq!(f(e.opened[0].entry_price), 0.55);
    assert!(e.closed.is_empty());
    assert_eq!(engine.session.trades_this_session, 1);
    assert!(engine.simulator.positions.len() <= cfg.risk.max_concurrent_positions);

    let report = engine.tick(&state, &cfg, NOW + 300);
    let e = report.evaluation.unwrap();
    assert!(matches!(e.outcomes[0], SignalOutcome::AlreadyOpen));
    assert!(matches!(report.snapshot.unwrap().missing_reason, MissingReason::HoldingPosition));

    let mut down = rising();
    down.btc5m_market.as_mut().unwrap().yes_price = d(0.5);
    down.btc5m_market.as_mut().unwrap().no_price = d(0.5001);
    let e = engine.tick(&down, &cfg, NOW + 600).evaluation.unwrap();
    assert_eq!(e.closed.len(), 1);
    assert!(e.closed[0].exit_reason == ExitReason::StopLoss);
    assert_eq!(engine.risk.consecutive_losses, 1);

    let e = engine.tick(&rising(), &cfg, NOW + 900).evaluation.unwrap();
    assert!(matches!(e.outcomes[0], SignalOutcome::DirectionCooldown));
}

#[test]
fn a_market_that_was_left_rests() {
    let cfg = config();
    let mut engine = StrategyEngine::new_at(&cfg, NOW);
    engine.session.last_trade_at_ms = Some(NOW);
    engine.risk.record_close_at(&trade("m1", Direction::No, 1.0, false), NOW);
    let e = engine.tick(&rising(), &cfg, NOW + 500).evaluation.unwrap();
    assert!(matches!(
        e.outcomes[0],
        SignalOutcome::Blocked { reason: RiskReason::MinInterval { .. } }
    ));
}

#[test]
fn the_engine_waits_behind_its_checks() {
    let mut cfg = config();
    let mut engine = StrategyEngine::new_at(&cfg, NOW);
    engine.session.last_trade_at_ms = Some(NOW);
    assert!(engine_tick(&mut engine, &MarketState::default(), &cfg, NOW) == Gate::NoData);
    let mut s = rising();
    s.btc5m_market.as_mut().unwrap().last_fetched_ms = NOW - 10_001;
    assert!(engine_tick(&mut engine, &s, &cfg, NOW) == Gate::Suppressed { elapsed_ms: 10_001 });
    s.btc5m_market.as_mut().unwrap().last_fetched_ms = NOW - 5_000;
    assert!(
        engine_tick(&mut engine, &s, &cfg, NOW)
            == Gate::OldPrice { age_ms: 5_000, max_ms: 3_000 }
    );
    s.latency.fallback_mode = true;
    assert!(engine_tick(&mut engine, &s, &cfg, NOW) != Gate::OldPrice { age_ms: 5_000, max_ms: 3_000 });
    let mut s = rising();
    s.btc5m_market.as_mut().unwrap().no_price = d(0.9);
    assert!(engine_tick(&mut engine, &s, &cfg, NOW) == Gate::InvalidPrices);
    let mut s = rising();
    s.btc5m_market.as_mut().unwrap().phase = MarketPhase::Final;
    assert!(engine_tick(&mut engine, &s, &cfg, NOW) == Gate::NotActive);
    cfg.strategy.observation_mode = true;
    assert!(engine_tick(&mut engine, &rising(), &cfg, NOW) == Gate::Observing);
    let mut s = rising();
    s.btc5m_market.as_mut().unwrap().last_fetched_ms = NOW + 1;
    let report = engine.tick(&s, &cfg, NOW);
    assert!(report.snapshot.is_some() && report.evaluation.is_none());
}

#[test]
fn a_cooldown_without_room_stops_only_what_starts_it() {
    let cfg = config();
    let mut down = rising();
    down.btc5m_market.as_mut().unwrap().yes_price = d(0.5);
    down.btc5m_market.as_mut().unwrap().no_price = d(0.5001);
    for earlier_losses in [0, 1] {
        let mut engine = StrategyEngine::new_at(&cfg, NOW);
        engine.session.last_trade_at_ms = Some(NOW - 60_000);
        engine.runtime.cooldown_after_loss_secs = u64::MAX;
        engine.risk.consecutive_losses = earlier_losses;
        let e = engine.tick(&rising(), &cfg, NOW).evaluation.unwrap();
        assert!(matches!(e.outcomes[0], SignalOutcome::Opened));
        let report = engine.tick(&down, &cfg, NOW + 600);
        assert!(report.snapshot.is_some());
        if earlier_losses == 0 {
            assert_eq!(report.evaluation.unwrap().closed.len(), 1);
            assert_eq!(engine.risk.consecutive_losses, 1);
        } else {
            assert!(report.evaluation.is_none());
            assert_eq!(engine.simulator.positions.len(), 1);
            assert!(engine.simulator.closed_trades.is_empty());
            assert_eq!(engine.risk.consecutive_losses, 1);
            assert!(engine.risk.cooldown_until_ms.is_none());
        }
    }
}

#[test]
fn what_has_no_room_is_taken_back() {
    let mut cfg = config();
    cfg.risk.max_concurrent_positions = 3;
    cfg.risk.max_exposure_usd = d(1000.0);
    let state = rising();
    let mut sim = PaperSimulator::new();
    sim.open_position_at(&signal("other", Direction::No, 0.4, 10.0), NOW - 1);
    let mut risk = RiskEngine::new(cfg.risk);
    risk.consecutive_losses = 5;
    let mut session = SessionState::new_at(NOW);
    let mut runtime = RuntimeConfig::initial(&cfg);
    runtime.consecutive_loss_limit = 1;
    let id = state.btc5m_market.as_ref().unwrap().slug.clone();
    let dear = || vec![None, Some(signal(&id, Direction::Yes, 0.8, 10.0))];
    let mut run = |runtime: &RuntimeConfig, sim: &mut PaperSimulator, risk: &mut RiskEngine| {
        evaluate_signals_at(&state, dear(), sim, risk, &mut session, &cfg, runtime, NOW)
    };
    runtime.cooldown_after_loss_secs = u64::MAX;
    assert!(run(&runtime, &mut sim, &mut risk).is_none());
    assert_eq!(sim.positions.len(), 1);
    assert_eq!(sim.positions[0].market_id, "other");
    assert_eq!((risk.config.consecutive_loss_limit, risk.config.cooldown_after_loss_secs), (2, 60));
    assert_eq!(risk.consecutive_losses, 5);
    runtime.cooldown_after_loss_secs = 60;
    let e = run(&runtime, &mut sim, &mut risk).unwrap();
    assert!(matches!(e.outcomes[1], SignalOutcome::Opened));
    assert_eq!(e.closed.len(), 2);
    assert!(sim.positions.is_empty());
    assert_eq!(risk.consecutive_losses, 1);
    assert_eq!(risk.cooldown_until_ms, Some(NOW + 60_000));
    assert_eq!(session.trades_this_session, 1);
}

#[test]
fn the_mode_changes_are_reported() {
    let cfg = config();
    let start = 1_748_822_400_000;
    let mut engine = StrategyEngine::new_at(&cfg, start);
    let r = engine.tick(&MarketState::default(), &cfg, start + 11 * 60_000);
    assert!(matches!(r.mode_change, Some((ThresholdMode::Relaxed, 11))));
    let r = engine.tick(&MarketState::default(), &cfg, start + 12 * 60_000);
    assert!(r.mode_change.is_none());
    let r = engine.tick(&MarketState::default(), &cfg, start + 31 * 60_000);
    assert!(matches!(r.mode_change, Some((ThresholdMode::Normal, 1))));
}

#[test]
fn the_engine_says_what_is_missing() {
    let cfg = config();
    let why = |s: &MarketState| {
        let mut engine = StrategyEngine::new_at(&cfg, NOW);
        engine.session.last_trade_at_ms = Some(NOW);
        engine.tick(s, &cfg, NOW).snapshot.unwrap().missing_reason
    };
    let mut s = rising();
    s.btc5m_market.as_mut().unwrap().phase = MarketPhase::Settled;
    assert!(matches!(why(&s), MissingReason::Phase { phase: MarketPhase::Settled }));
    let mut s = rising();
    s.btc.price_velocity = d(0.0001);
    s.btc.volume_delta = d(0.001);
    assert!(matches!(why(&s), MissingReason::NeedsEdge { .. }));
    let mut s = rising();
    s.btc5m_market.as_mut().unwrap().spread = d(0.5);
    assert!(matches!(why(&s), MissingReason::Gate { .. }));
    let mut s = rising();
    s.btc.microtrend = MicroTrend::Choppy;
    assert!(matches!(why(&s), MissingReason::Choppy));
    let mut s = rising();
    s.btc.volume_delta = d(-8.0);
    assert!(matches!(why(&s), MissingReason::VolumeNotAligned));
    let mut s = rising();
    s.btc.order_flow_ratio = d(0.5);
    assert!(matches!(why(&s), MissingReason::FlowNotAligned { .. }));
    let mut s = rising();
    s.btc.velocity_consistency = d(0.2);
    assert!(matches!(why(&s), MissingReason::Inconsistent { .. }));
    let mut s = rising();
    s.btc.price_acceleration = d(-0.6);
    assert!(matches!(why(&s), MissingReason::Decelerating { .. }));
}

#[test]
fn a_poll_changes_the_settings() {
    let cfg = config();
    let v = |s: &str| Reply::Value(s.to_string());
    let mut r = RuntimeConfig::initial(&cfg);
    assert_eq!(r.mode, "paper");
    r.apply(
        &PolledConfig {
            paused: v("true"),
            size_usd: v("2.5"),
            mode: v("live"),
            min_edge_pct: v("8"),
            min_confidence: v("0.4"),
            max_spread_for_trade: v("4.0"),
            consecutive_loss_limit: v("7"),
            cooldown_after_loss_secs: v("90"),
        },
        &cfg,
    );
    assert!(r.paused);
    assert_eq!(f(r.size_usd), 2.5);
    assert_eq!(r.mode, "live");
    assert_eq!(f(r.min_edge_pct), 0.08);
    assert_eq!(f(r.min_confidence), 0.4);
    assert_eq!(f(r.max_spread_for_trade), 0.04);
    assert_eq!((r.consecutive_loss_limit, r.cooldown_after_loss_secs), (7, 90));
    r.apply(
        &PolledConfig {
            paused: Reply::Failed,
            size_usd: v("1000"),
            mode: Reply::Failed,
            min_edge_pct: v("x"),
            min_confidence: Reply::Missing,
            max_spread_for_trade: Reply::Failed,
            consecutive_loss_limit: v("-1"),
            cooldown_after_loss_secs: Reply::Missing,
        },
        &cfg,
    );
    assert!(r.paused);
    assert_eq!(f(r.size_usd), 2.5);
    assert_eq!(r.mode, "live");
    assert_eq!(f(r.min_edge_pct), 0.08);
    assert_eq!(f(r.min_confidence), 0.3);
    assert_eq!((r.consecutive_loss_limit, r.cooldown_after_loss_secs), (7, 60));
}

#[test]
fn timers_throttle_the_engine() {
    let mut t = EngineTimers::new();
    assert!(t.poll_due(NOW));
    assert!(!t.poll_due(NOW + 999));
    assert!(t.poll_due(NOW + 1_000));
    assert!(!t.evaluation_due(true, NOW));
    assert!(t.evaluation_due(false, NOW));
    assert!(!t.evaluation_due(false, NOW + 249));
    assert!(t.evaluation_due(false, NOW + 250));
    assert!(t.broadcast_due(5, NOW));
    assert!(!t.broadcast_due(5, NOW + 4_999));
    assert!(t.broadcast_due(5, NOW + 5_000));
}

#[test]
fn an_exhausted_market_is_faded() {
    let cfg = config();
    let s = ExhaustionStrategy::new(cfg.strategy.exhaustion, d(0.04), d(2.0));
    assert_eq!(s.name(), "exhaustion");
    assert!(s.is_enabled());
    let mut state = rising();
    state.btc.velocity_5s = d(0.1);
    state.btc.velocity_15s = d(1.0);
    let m = state.btc5m_market.as_mut().unwrap();
    m.yes_price = d(0.8);
    m.no_price = d(0.2);
    let edge = EdgeScore {
        direction: Direction::Yes,
        edge_pct: d(0.0),
        confidence: d(0.0),
        tradeable: false,
        reason: None,
    };
    let mut engine = StrategyEngine::new_at(&cfg, NOW);
    let estimate = engine.tick(&state, &cfg, NOW).snapshot.unwrap().estimate;
    let r = s.evaluate(&state, &edge, &estimate, NOW).unwrap();
    assert!(r.direction == Direction::No);
    assert_eq!(f(r.target_entry_price), 0.2);
    assert_eq!(f(r.size_usd), 1.0);
    assert_eq!(f(r.confidence), 0.5);
    assert_eq!(r.exit_before_final_secs, 30);
    assert_eq!(r.price_age_ms, 100);
    assert!(s.evaluate_now(&state, &edge, &estimate).is_some());
    state.btc.velocity_5s = d(0.9);
    assert!(s.evaluate(&state, &edge, &estimate, NOW).is_none());
    let b = FailedBreakoutStrategy::new();
    assert!(b.evaluate(&state, &edge, &estimate, NOW).is_none());
    assert!(!b.is_enabled());
}

#[test]
fn divergence_needs_a_tradeable_edge() {
    let cfg = config();
    let s = DivergenceStrategy::new(cfg.strategy.divergence, d(3.0));
    assert_eq!(s.name(), "divergence");
    let state = rising();
    let mut edge = EdgeScore {
        direction: Direction::No,
        edge_pct: d(0.05),
        confidence: d(0.6),
        tradeable: true,
        reason: None,
    };
    let mut engine = StrategyEngine::new_at(&cfg, NOW);
    let estimate = engine.tick(&state, &cfg, NOW).snapshot.unwrap().estimate;
    let r = s.evaluate(&state, &edge, &estimate, NOW).unwrap();
    assert_eq!(f(r.target_entry_price), 1.0 - 0.55);
    assert_eq!(f(r.target_exit_price), 1.0 - 0.55 + 0.05);
    assert_eq!(f(r.size_usd), 3.0);
    assert_eq!(r.market_id, "m1");
    assert!(s.evaluate_now(&state, &edge, &estimate).is_some());
    edge.tradeable = false;
    assert!(s.evaluate(&state, &edge, &estimate, NOW).is_none());
}

fn followed() -> PolymarketState {
    PolymarketState {
        market_id: "p".to_string(),
        question: "q".to_string(),
        yes_price: d(0.5),
        no_price: d(0.5),
        spread: d(0.01),
        volume_24h: d(1000.0),
        time_remaining_secs: 100,
        last_updated_ms: NOW,
    }
}

#[test]
fn entry_filters_name_what_fails() {
    let cfg = config();
    let state = rising();
    let fails = |m: &PolymarketState, now: u64| {
        let r = EntryFilter::passes_all_at(&state, m, &cfg.edge, now);
        assert_eq!(r.passed, r.failed_reason.is_none());
        r.failed_reason
    };
    assert!(fails(&followed(), NOW).is_none());
    assert!(matches!(
        fails(&followed(), NOW + 2_001),
        Some(FilterReason::Stale { age_ms: 2_001, max_ms: 2_000 })
    ));
    let mut m = followed();
    m.spread = d(0.5);
    assert!(matches!(fails(&m, NOW), Some(FilterReason::WideSpread { .. })));
    let mut m = followed();
    m.volume_24h = d(499.0);
    assert!(matches!(fails(&m, NOW), Some(FilterReason::LowVolume { .. })));
    let mut m = followed();
    m.time_remaining_secs = 59;
    assert!(matches!(fails(&m, NOW), Some(FilterReason::TooLate { .. })));
    m.time_remaining_secs = 281;
    assert!(matches!(fails(&m, NOW), Some(FilterReason::TooEarly { .. })));
    let calm = MarketState::default();
    let r = EntryFilter::passes_all(&calm, &followed(), &cfg.edge);
    assert!(matches!(r.failed_reason, Some(FilterReason::Choppy)));
}

#[test]
fn reasons_are_put_into_words() {
    let t = |r: MissingReason| r.text().unwrap();
    assert_eq!(t(MissingReason::Paused), "Engine paused");
    assert_eq!(t(MissingReason::HoldingPosition), "Holding open position");
    assert_eq!(t(MissingReason::NoMarket), "No active market");
    assert_eq!(t(MissingReason::Phase { phase: MarketPhase::Final }), "Market phase is Final");
    let late = EdgeReason::TooLate { secs: -10, min_secs: 60 };
    assert_eq!(t(MissingReason::Gate { reason: late }), "time -10s < min 60s");
    assert_eq!(t(MissingReason::NotTradeable), "Not tradeable");
    assert_eq!(t(MissingReason::Choppy), "microtrend is Choppy");
    assert_eq!(t(MissingReason::VolumeNotAligned), "Volume delta not aligned with velocity");
    assert_eq!(t(MissingReason::Nothing), "None");
    assert!(MissingReason::NeedsEdge { needed: d(0.1) }.text().is_none());
    let early = EdgeReason::TooEarly { secs: 290, max_secs: 280 };
    assert_eq!(early.text().unwrap(), "time 290s > max 280s");
    assert!(EdgeReason::LowEdge { edge: d(0.1), min: d(0.2) }.text().is_none());

    let r = RiskReason::Cooldown { remaining_secs: 59, consecutive_losses: 2 };
    assert_eq!(r.text("m").unwrap(), "cooldown active until +59s (2 consecutive losses)");
    let r = RiskReason::MaxPositions { max: 3 };
    assert_eq!(r.text("m").unwrap(), "max concurrent positions 3 reached");
    let r = RiskReason::MinInterval { elapsed_secs: 5, min_secs: 30 };
    assert_eq!(
        r.text("m").unwrap(),
        "min trade interval: 5s since last trade on m (min 30s)"
    );
    let r = RiskReason::MaxExposure { max_usd: d(1.0), exposure_usd: d(2.0) };
    assert!(r.text("m").is_none());

    let t = |r: FilterReason| r.text().unwrap();
    assert_eq!(t(FilterReason::Choppy), "microtrend is Choppy");
    assert_eq!(t(FilterReason::TooLate { secs: 1, min_secs: 60 }), "time 1s < min 60s");
    assert_eq!(t(FilterReason::TooEarly { secs: 300, max_secs: 280 }), "time 300s > max 280s");
    assert_eq!(t(FilterReason::Stale { age_ms: 2_001, max_ms: 2_000 }), "data stale: 2001ms > 2000ms");
    assert!(FilterReason::LowVolume { volume: d(1.0), min: d(2.0) }.text().is_none());
}

#[test]
fn evaluation_by_the_clock_needs_room() {
    let cfg = config();
    let mut engine = StrategyEngine::new_at(&cfg, NOW);
    let mut state = rising();
    let ts = engine.tick(&state, &cfg, NOW).snapshot.unwrap();
    let mut sim = PaperSimulator::new();
    let mut risk = RiskEngine::new(cfg.risk);
    let mut session = SessionState::new();
    let runtime = RuntimeConfig::initial(&cfg);
    let strategies = vec![FailedBreakoutStrategy::new()];
    let r = evaluate_all(
        &state, &strategies, &mut sim, &mut risk, &mut session, &cfg, &runtime, &ts,
    );
    assert!(matches!(r.unwrap().gate, Gate::Suppressed { .. }));
    state.btc5m_market.as_mut().unwrap().last_fetched_ms = u64::MAX;
    let r = evaluate_all(
        &state, &strategies, &mut sim, &mut risk, &mut session, &cfg, &runtime, &ts,
    );
    assert!(r.is_none());
    let r = evaluate_all_at(
        &state, &strategies, &mut sim, &mut risk, &mut session, &cfg, &runtime, &ts, NOW,
    );
    assert!(r.is_none());
    let state = rising();
    let r = evaluate_all_at(
        &state, &strategies, &mut sim, &mut risk, &mut session, &cfg, &runtime, &ts, NOW,
    )
    .unwrap();
    assert!(r.gate == Gate::Open);
    assert!(matches!(r.outcomes[0], SignalOutcome::NoSignal));
}

fn texts(json: Option<&str>) -> EventTexts {
    EventTexts {
        json: json.map(|s| s.to_string()),
        yes_price: "0.55".to_string(),
        no_price: "0.45".to_string(),
        reason: "a \"bad\" price".to_string(),
    }
}

fn shown(event: &MarketEvent, json: Option<&str>) -> Vec<String> {
    dispatch(event, &texts(json), 77)
        .into_iter()
        .map(|c| match c {
            RedisCommand::Publish { channel, payload } => format!("PUBLISH {channel} {payload}"),
            RedisCommand::Store { key, value } => format!("SET {key} {value}"),
            RedisCommand::SetEx { key, secs, value } => format!("SETEX {key} {secs} {value}"),
            RedisCommand::HSet { key, field, count } => format!("HSET {key} {field} {count}"),
            RedisCommand::PushTrimmed { key, value, max_len } => {
                format!("PUSH {key} {value} {max_len}")
            }
            RedisCommand::Increment { key } => format!("INCR {key}"),
            RedisCommand::DeleteMatching { pattern } => format!("DEL {pattern}"),
        })
        .collect()
}

#[test]
fn a_market_is_written_under_its_names() {
    let event = MarketEvent::PolymarketUpdate(market(0.55));
    assert_eq!(
        shown(&event, Some("{}")),
        [
            "SET polytrade:btc5m:current {}",
            "SET polytrade:btc5m:yes_price 0.55",
            "SET polytrade:btc5m:no_price 0.45",
            "SET polytrade:btc5m:phase active",
            "SET polytrade:btc5m:secs_remaining 200",
            "DEL polytrade:state:market:*",
            "SETEX polytrade:state:market:m1 60 {}",
            "SETEX polytrade:state:market:0xc 60 {}",
            "PUBLISH polytrade:market:0xc {}",
        ]
    );
    let mut m = market(0.55);
    m.phase = MarketPhase::Final;
    m.time_remaining_secs = -3;
    let r = shown(&MarketEvent::PolymarketUpdate(m), Some("{}"));
    assert_eq!(r[3], "SET polytrade:btc5m:phase final");
    assert_eq!(r[4], "SET polytrade:btc5m:secs_remaining -3");
    assert_eq!(r.len(), 8);
    assert!(shown(&event, None).is_empty());
}

#[test]
fn events_are_told() {
    let t = BtcTick {
        price: d(1.0),
        quantity: d(1.0),
        side: TradeSide::Buy,
        timestamp_ms: 1,
        event_time_ms: 1,
    };
    assert_eq!(shown(&MarketEvent::BtcTick(t), Some("T")), ["PUBLISH polytrade:btc:tick T"]);
    assert_eq!(
        shown(&MarketEvent::PolymarketStateUpdate(followed()), Some("P")),
        ["PUBLISH polytrade:market:p P", "SETEX polytrade:state:market:p 60 P"]
    );
    assert_eq!(
        shown(&MarketEvent::LatencyAlert { source: FeedSource::Binance, latency_ms: 9 }, None),
        ["HSET polytrade:latency:binance latency_ms 9"]
    );
    let status = MarketEvent::ConnectionStatus(FeedSource::Polymarket, ConnectionStatus::Connected);
    assert!(shown(&status, Some("x")).is_empty());
    assert_eq!(
        shown(
            &MarketEvent::FeedCriticalAlert { feed: "Polymarket".to_string(), down_secs: 61 },
            None
        ),
        [concat_outage()]
    );
    let rejected = MarketEvent::PriceRejected {
        reason: PriceRejectReason::StaleSnapshot,
        origin: PriceSource::RestSnapshot,
    };
    assert_eq!(
        shown(&rejected, None),
        [
            "INCR polytrade:stats:price_rejections",
            r#"PUBLISH polytrade:events {"data":{"reason":"a \"bad\" price","ts_ms":77},"type":"price_rejected"}"#,
        ]
    );
}

fn concat_outage() -> &'static str {
    "PUBLISH polytrade:events {\"data\":{\"down_secs\":61,\"feed\":\"Polymarket\",\"message\":\"Polymarket feed down 61s+ — REST fallback active\"},\"type\":\"feed_critical\"}"
}

#[test]
fn trades_are_listed_and_told() {
    let close = |suspicious| {
        MarketEvent::PaperTradeClose(trade("m", Direction::Yes, 1.0, suspicious))
    };
    assert_eq!(
        shown(&close(false), Some("1")),
        [
            "PUSH polytrade:paper:trades 1 1000",
            r#"PUBLISH polytrade:events {"type":"paper_close","data":1}"#,
        ]
    );
    assert_eq!(shown(&close(true), Some("1"))[0], "PUSH polytrade:paper:suspicious_trades 1 1000");
    let mut s = PaperSimulator::new();
    let p = s.open_position_at(&signal("m1", Direction::Yes, 0.5, 2.0), NOW);
    assert_eq!(
        shown(&MarketEvent::PaperTradeOpen(p), Some("2")),
        [r#"PUBLISH polytrade:events {"type":"paper_open","data":2}"#]
    );
}

#[test]
fn the_edge_snapshot_is_broadcast() {
    let cfg = config();
    let mut engine = StrategyEngine::new_at(&cfg, NOW);
    engine.session.last_trade_at_ms = Some(NOW);
    let state = rising();
    let report = engine.tick(&state, &cfg, NOW);
    let s = edge_snapshot_at(&state, &cfg, &engine.runtime, &engine.session, &report.snapshot, NOW);
    assert_eq!(s.market_id, "m1");
    assert!(s.direction == Some(Direction::Yes));
    let fields = edge_snapshot_fields(&s, 5);
    assert_eq!(fields.len(), 22);
    assert!(matches!(&fields[8], ("direction", Field::Text(t)) if t == "YES"));
    assert!(matches!(fields[21], ("ts_ms", Field::Count(5))));
    let none = edge_snapshot_at(&state, &cfg, &engine.runtime, &engine.session, &None, NOW);
    assert!(matches!(none.missing_reason, MissingReason::NoMarket));
    assert!(matches!(&edge_snapshot_fields(&none, 5)[8].1, Field::Text(t) if t == "—"));
    assert_eq!(
        shown(&MarketEvent::EdgeSnapshot(s), Some("E")),
        [
            "SETEX polytrade:edge:snapshot 90 E",
            r#"PUBLISH polytrade:events {"type":"edge_snapshot","data":E}"#,
        ]
    );
    let ts = report.snapshot.unwrap();
    let fields = signal_fields(&state, &ts, &engine.session, NOW).unwrap();
    assert_eq!(fields.len(), 36);
    assert!(matches!(&fields[10], ("btc_trend", Field::Text(t)) if t == "Bullish"));
    assert!(matches!(fields[30], ("fallback_mode", Field::Flag(false))));
    assert!(signal_fields(&MarketState::default(), &ts, &engine.session, NOW).is_none());
}

#[test]
fn settings_are_written_in_per_cent() {
    let fields = settings_fields(&config());
    assert_eq!(fields.len(), 12);
    assert!(matches!(&fields[0], ("polytrade:config:mode", Field::Text(t)) if t == "paper"));
    match fields[8] {
        ("polytrade:config:stop_loss_pct", Field::Real(x)) => assert_eq!(f(x), 0.03 * 100.0),
        _ => panic!(),
    }
    assert!(matches!(fields[7], ("polytrade:config:exit_before_final_secs", Field::Signed(20))));
}
