use polytrade::config::{
    AppConfig, Btc5mConfig, DataQualityConfig, DivergenceConfig, EdgeConfig, ExhaustionConfig,
    FeedsConfig, LoggingConfig, PaperConfig, ProbabilityConfig, RedisConfig, RiskConfig,
    StateConfig, StrategyConfig,
};
use polytrade::events::bus::{CycleEventType, FeedSource, MarketEvent};
use polytrade::market_data::binance::{windows_are_in_range, BinanceSession};
use polytrade::market_data::btc5m_tracker::{
    accept_rest_price, new_market, prepare_connection, read_market_reply, store_next, Btc5mTracker,
    MarketReply, RestPoll, WsSession,
};
use polytrade::market_data::normalizer::normalize_binance_trade;
use polytrade::market_data::price_validator::{PriceRejectReason, PriceSource, PriceValidator};
use polytrade::market_data::state::{
    apply_price_update, prices_valid_for_trading, Btc5mMarket, BtcState, BtcTick, MarketPhase,
    MarketState, MicroTrend, TradeSide, VelocityTrend,
};
use polytrade::numeric::Double;

fn d(x: f64) -> Double {
    Double::from_bits(x.to_bits())
}

fn f(x: Double) -> f64 {
    f64::from_bits(x.to_bits())
}

fn config() -> AppConfig {
    AppConfig {
        feeds: FeedsConfig {
            binance_ws: String::new(),
            polymarket_rest: String::new(),
            polymarket_ws: String::new(),
            market_filter_min_secs: 0,
            market_filter_max_secs: 300,
            market_keyword_filter: String::new(),
        },
        state: StateConfig { btc_tick_window_secs: 60, btc_max_ticks: 100 },
        redis: RedisConfig { url: String::new(), publish_enabled: false },
        logging: LoggingConfig { level: String::new(), format: String::new() },
        probability: ProbabilityConfig {
            max_momentum_adjustment: d(0.1),
            momentum_weight: d(0.6),
            delta_weight: d(0.4),
        },
        edge: EdgeConfig {
            min_edge_pct: d(0.03),
            min_confidence: d(0.3),
            max_spread_for_trade: d(0.04),
            min_time_remaining_secs: 60,
            max_time_remaining_secs: 280,
            edge_broadcast_interval_secs: 5,
        },
        strategy: StrategyConfig {
            observation_mode: false,
            relaxed_mode_after_mins: 10,
            relaxed_min_edge_pct: d(0.025),
            relaxed_min_confidence: d(0.2),
            relaxed_min_velocity_abs: d(0.05),
            floor_mode_after_mins: 22,
            floor_min_edge_pct: d(0.015),
            floor_min_confidence: d(0.15),
            floor_entry_if_any_signal: false,
            session_definition_mins: 30,
            divergence: DivergenceConfig {
                enabled: true,
                market_uncertainty_min: d(0.35),
                market_uncertainty_max: d(0.65),
                min_velocity_abs: d(0.1),
                min_velocity_consistency: d(0.5),
                velocity_scale: d(2.0),
                delta_scale: d(10.0),
                min_edge_pct: d(0.03),
                min_confidence: d(0.3),
                max_expected_repricing: d(0.1),
                profit_target_pct: d(0.05),
                stop_loss_pct: d(0.03),
                exit_before_final_secs: 20,
                max_spread: d(0.04),
                require_volume_alignment: true,
                min_time_remaining_secs: 60,
                max_time_remaining_secs: 280,
            },
            exhaustion: ExhaustionConfig {
                enabled: true,
                min_edge_pct: d(0.06),
                exhaustion_threshold: d(0.75),
                velocity_taper_ratio: d(0.6),
                profit_target_pct: d(0.05),
                stop_loss_pct: d(0.03),
                size_multiplier: d(0.5),
                min_time_remaining_secs: 60,
                max_time_remaining_secs: 280,
            },
        },
        risk: RiskConfig {
            max_concurrent_positions: 2,
            max_exposure_usd: d(10.0),
            consecutive_loss_limit: 2,
            cooldown_after_loss_secs: 60,
            min_trade_interval_secs: 30,
        },
        paper: PaperConfig {
            enabled: true,
            default_size_usd: d(1.0),
            flag_suspicious_trades: true,
            suspicious_pnl_threshold_pct: d(50.0),
            suspicious_hold_max_secs: 30,
        },
        btc5m: Btc5mConfig {
            gamma_api: String::new(),
            clob_api: String::new(),
            clock_sync_interval_secs: 60,
            final_window_secs: 30,
            pre_fetch_next_secs: 60,
            price_stale_threshold_ms: 10_000,
            market_retry_attempts: 3,
            market_retry_interval_secs: 2,
            velocity_window_10s: 10,
            velocity_window_5s: 5,
            velocity_window_15s: 15,
        },
        data_quality: DataQualityConfig {
            max_price_jump_pct_per_5s: d(0.15),
            max_price_age_ms: 3_000,
            max_price_age_fallback_ms: 8_000,
            ws_min_tick_rate: d(0.1),
            ws_silence_reconnect_secs: 15,
            ws_ping_interval_secs: 10,
        },
    }
}

fn tick(price: f64, quantity: f64, side: TradeSide, at: u64) -> BtcTick {
    BtcTick { price: d(price), quantity: d(quantity), side, timestamp_ms: at, event_time_ms: at }
}

#[test]
fn ticks_move_the_metrics() {
    let mut s = BtcState::default();
    s.push_tick(tick(100.0, 2.0, TradeSide::Buy, 10_000), 100, 60, 5, 10, 15);
    assert_eq!(f(s.price), 100.0);
    assert_eq!(f(s.price_velocity), 0.0);
    s.push_tick(tick(104.0, 0.5, TradeSide::Sell, 14_000), 100, 60, 5, 10, 15);
    assert_eq!(f(s.price_velocity), 1.0);
    assert_eq!(f(s.velocity_5s), 1.0);
    assert_eq!(f(s.volume_delta), 1.5);
    assert_eq!(f(s.volatility), 2.0);
    assert!(s.microtrend == MicroTrend::Bullish);
    assert!(s.velocity_trend == VelocityTrend::Stable);
    s.push_tick(tick(105.0, 5.0, TradeSide::Sell, 21_000), 100, 60, 5, 10, 15);
    assert_eq!(f(s.velocity_5s), 0.0);
    assert_eq!(f(s.velocity_15s), 5.0 / 11.0);
    assert!(s.velocity_trend == VelocityTrend::Tapering);
    assert!(s.microtrend == MicroTrend::Choppy);
    assert_eq!(s.microtrend.as_str(), "Choppy");
    assert_eq!(s.velocity_trend.as_str(), "Tapering");
}

#[test]
fn the_history_is_trimmed() {
    let mut s = BtcState::default();
    for i in 0..10 {
        s.push_tick(tick(100.0, 1.0, TradeSide::Buy, 1_000 * i), 4, 60, 5, 10, 15);
        assert!(s.tick_history.len() <= 4);
    }
    s.push_tick(tick(100.0, 1.0, TradeSide::Buy, 100_000), 4, 60, 5, 10, 15);
    assert_eq!(s.tick_history.len(), 1);
    s.push_tick(tick(101.0, 1.0, TradeSide::Buy, 100_001), 0, 60, 5, 10, 15);
    assert_eq!(s.tick_history.len(), 0);
    assert_eq!(f(s.price), 101.0);
}

fn market(yes: f64) -> Btc5mMarket {
    Btc5mMarket {
        slug: "btc-updown-5m-1748823600".to_string(),
        condition_id: "0xc".to_string(),
        yes_token_id: "ty".to_string(),
        no_token_id: "tn".to_string(),
        question: "BTC up?".to_string(),
        window_start_unix: 1748823600,
        window_end_unix: 1748823900,
        phase: MarketPhase::Active,
        yes_price: d(yes),
        no_price: d(1.0 - yes),
        spread: d(0.01),
        volume_24h: d(100.0),
        time_remaining_secs: 200,
        last_fetched_ms: 0,
        price_source: String::new(),
    }
}

#[test]
fn a_price_moves_both_sides() {
    let mut m = market(0.5);
    assert!(apply_price_update(&mut m, "ty", d(0.7), 9));
    assert_eq!(f(m.yes_price), 0.7);
    assert_eq!(f(m.no_price), 1.0 - 0.7);
    assert_eq!(m.last_fetched_ms, 9);
    assert!(apply_price_update(&mut m, "tn", d(0.7), 10));
    assert_eq!(f(m.no_price), 0.7);
    assert_eq!(f(m.yes_price), 1.0 - 0.7);
    assert!(!apply_price_update(&mut m, "ty", d(0.001), 11));
    assert!(!apply_price_update(&mut m, "ty", d(0.999), 11));
    assert!(!apply_price_update(&mut m, "??", d(0.5), 11));
    assert_eq!(m.last_fetched_ms, 10);
    for i in 1..100 {
        assert!(apply_price_update(&mut m, "ty", d(i as f64 / 100.0), 12));
        assert_eq!(f(m.yes_price) + f(m.no_price), 1.0);
    }
}

#[test]
fn prices_are_checked_before_trading() {
    assert!(prices_valid_for_trading(&market(0.6)));
    assert!(!prices_valid_for_trading(&market(0.5)));
    assert!(!prices_valid_for_trading(&market(0.01)));
    let mut m = market(0.6);
    m.no_price = d(0.6);
    assert!(!prices_valid_for_trading(&m));
    assert_eq!(MarketPhase::PreOpen.as_str(), "PreOpen");
}

#[test]
fn a_market_lives_through_its_window() {
    let mut t = Btc5mTracker::new(d(1748823650.0), 0);
    let mut state = MarketState::default();
    let mut validator = PriceValidator::new();
    assert_eq!(t.current_window_ts, 1748823600);
    assert!(t.needs_market(d(1748823650.0)));
    let r = t.begin_rollover(&mut state, d(1748823650.0));
    assert_eq!(r.slug, "btc-updown-5m-1748823600");
    assert!(r.events.is_empty() && r.prefetched.is_none());

    let body = r#"[{"conditionId":"0xc","slug":"btc-updown-5m-1748823600","question":"q",
        "active":true,"closed":false,"clobTokenIds":"[\"ty\",\"tn\"]"}]"#;
    let (gamma, mapping) = match read_market_reply(body) {
        MarketReply::Found { market, mapping } => (market, mapping),
        _ => panic!(),
    };
    let m = new_market(gamma, mapping, 1748823600, 250, 7);
    assert_eq!(m.window_end_unix, 1748823900);
    assert!(m.phase == MarketPhase::PreOpen);
    assert_eq!(f(m.yes_price), 0.5);
    assert_eq!(m.price_source, "RestSnapshot");

    let events = t.activate(
        &mut state,
        &mut validator,
        m,
        (d(0.6), d(0.02)),
        33,
        250,
        30,
        d(1748823650.0),
        8,
        9,
    );
    assert_eq!(events.len(), 3);
    assert!(matches!(
        events[0],
        MarketEvent::LatencyAlert { source: FeedSource::Polymarket, latency_ms: 33 }
    ));
    let active = state.btc5m_market.as_ref().unwrap();
    assert!(active.phase == MarketPhase::Active);
    assert_eq!(f(active.yes_price), 0.6);
    assert_eq!(f(active.spread), 0.02);
    assert_eq!(state.latency.polymarket_ms, 33);
    assert!(!t.needs_market(d(1748823899.0)));

    assert!(t.tick_active(&mut state, 100, 30, d(1748823800.0)).is_empty());
    assert_eq!(state.btc5m_market.as_ref().unwrap().time_remaining_secs, 100);
    assert!(t.prefetch_due(&state, 100, 60).is_none());
    assert_eq!(t.prefetch_due(&state, 60, 60), Some(1748823900));

    let events = t.tick_active(&mut state, 30, 30, d(1748823870.0));
    assert_eq!(events.len(), 2);
    match &events[1] {
        MarketEvent::MarketCycleEvent(e) => {
            assert!(e.event_type == CycleEventType::FinalWindowEntered);
            assert_eq!(e.event_type.as_str(), "FinalWindowEntered");
        }
        _ => panic!(),
    }
    assert!(t.tick_active(&mut state, 29, 30, d(1748823871.0)).is_empty());

    let mut next = market(0.5);
    next.slug = "btc-updown-5m-1748823900".to_string();
    match store_next(&mut state, next, 5_500) {
        MarketEvent::MarketCycleEvent(e) => {
            assert!(e.event_type == CycleEventType::NextMarketPreloaded);
            assert_eq!(f(e.server_time_unix), 5.5);
        }
        _ => panic!(),
    }
    assert!(t.prefetch_due(&state, 10, 60).is_none());

    assert!(t.needs_market(d(1748823901.0)));
    let r = t.begin_rollover(&mut state, d(1748823901.0));
    assert_eq!(r.events.len(), 2);
    match &r.events[0] {
        MarketEvent::PolymarketUpdate(m) => assert!(m.phase == MarketPhase::Settled),
        _ => panic!(),
    }
    assert_eq!(r.prefetched.unwrap().slug, "btc-updown-5m-1748823900");
    assert!(state.next_market.is_none());
}

#[test]
fn rest_polls_come_faster_in_fallback() {
    let mut t = Btc5mTracker::new(d(1748823650.0), 0);
    assert!(t.rest_poll_due(false, 60_000_000_000).is_none());
    t.active_market = Some(market(0.5));
    assert!(t.rest_poll_due(false, 9_000_000_000).is_none());
    let poll = t.rest_poll_due(true, 9_000_000_000).unwrap();
    assert_eq!(poll.yes_token_id, "ty");
    assert!(t.rest_poll_due(false, 18_000_000_000).is_none());
    assert!(t.rest_poll_due(false, 19_000_000_000).is_some());
    t.active_market.as_mut().unwrap().phase = MarketPhase::Final;
    assert!(t.rest_poll_due(true, 99_000_000_000).is_none());
}

#[test]
fn a_silent_feed_raises_one_alert() {
    let mut t = Btc5mTracker::new(d(1748823650.0), 0);
    let mut state = MarketState::default();
    state.latency.polymarket_last_msg_ms = 1_000;
    state.latency.polymarket_tick_rate = d(2.0);
    assert!(t.check_feed(&mut state, d(0.1), 5_000).is_empty());
    assert!(!state.latency.fallback_mode);
    assert!(t.check_feed(&mut state, d(0.1), 12_000).is_empty());
    assert!(state.latency.fallback_mode);
    assert_eq!(f(state.latency.polymarket_tick_rate), 0.0);
    let events = t.check_feed(&mut state, d(0.1), 63_000);
    assert!(matches!(&events[0], MarketEvent::FeedCriticalAlert { down_secs: 62, .. }));
    assert!(t.check_feed(&mut state, d(0.1), 64_000).is_empty());
    state.latency.polymarket_last_msg_ms = 64_000;
    state.latency.polymarket_tick_rate = d(0.5);
    assert!(t.check_feed(&mut state, d(0.1), 65_000).is_empty());
    assert!(!state.latency.fallback_mode);
    assert!(!t.critical_alert_sent);
}

#[test]
fn a_connection_is_made_for_its_own_window_only() {
    let mut state = MarketState::default();
    assert!(!prepare_connection(&mut state, 1748823600));
    assert!(!state.latency.fallback_mode);
    state.btc5m_market = Some(market(0.5));
    assert!(!prepare_connection(&mut state, 5));
    assert!(prepare_connection(&mut state, 1748823600));
    assert!(state.latency.fallback_mode);
}

#[test]
fn a_polled_price_is_validated() {
    let mut state = MarketState::default();
    let mut validator = PriceValidator::new();
    state.btc5m_market = Some(market(0.5));
    let poll = RestPoll {
        yes_token_id: "ty".to_string(),
        slug: "btc-updown-5m-1748823600".to_string(),
    };
    let e = accept_rest_price(&mut state, &mut validator, &poll, d(0.6), 12, d(0.15), false, 1_000);
    assert_eq!(e.len(), 2);
    assert_eq!(f(state.btc5m_market.as_ref().unwrap().yes_price), 0.6);
    assert_eq!(f(state.btc5m_market.as_ref().unwrap().spread), 0.0);
    assert_eq!(f(state.btc5m_market.as_ref().unwrap().no_price), 1.0 - 0.6);
    assert_eq!(state.latency.polymarket_ms, 12);
    let e = accept_rest_price(&mut state, &mut validator, &poll, d(0.9), 13, d(0.15), false, 1_500);
    assert!(matches!(
        &e[0],
        MarketEvent::PriceRejected {
            reason: PriceRejectReason::SuspiciousJump { .. },
            origin: PriceSource::RestSnapshot
        }
    ));
    assert!(matches!(e[1], MarketEvent::LatencyAlert { latency_ms: 13, .. }));
    assert_eq!(state.latency.price_rejections, 1);
    assert_eq!(f(state.btc5m_market.as_ref().unwrap().yes_price), 0.6);
}

#[test]
fn socket_messages_move_the_market() {
    let mut state = MarketState::default();
    let mut validator = PriceValidator::new();
    let mut ws = WsSession::new("ty".to_string(), "tn".to_string());
    state.latency.fallback_mode = true;
    state.btc5m_market = Some(market(0.5));
    let jump = d(0.15);
    assert!(ws.handle_text(&mut state, &mut validator, "PONG", jump, 500).unwrap().is_empty());
    assert_eq!(state.latency.polymarket_last_msg_ms, 500);
    assert!(ws.handle_text(&mut state, &mut validator, "{", jump, 600).is_err());
    let raw = r#"{"event_type":"last_trade_price","asset_id":"tn","price":"0.45","sequence":3}"#;
    let e = ws.handle_text(&mut state, &mut validator, raw, jump, 1_000).unwrap();
    assert_eq!(e.len(), 1);
    let m = state.btc5m_market.as_ref().unwrap();
    assert_eq!(f(m.no_price), 0.45);
    assert_eq!(f(m.yes_price) + f(m.no_price), 1.0);
    assert_eq!(m.price_source, "WebSocketLive");
    assert!(!state.latency.fallback_mode);
    assert_eq!(f(state.latency.polymarket_tick_rate), 0.1);
    let e = ws.handle_text(&mut state, &mut validator, raw, jump, 1_200).unwrap();
    assert!(matches!(
        &e[0],
        MarketEvent::PriceRejected {
            reason: PriceRejectReason::OutOfSequence { received: 3, last: 3 },
            origin: PriceSource::WebSocketLive
        }
    ));
    let later = r#"{"event_type":"last_trade_price","asset_id":"tn","price":"0.46","sequence":4}"#;
    let e = ws.handle_text(&mut state, &mut validator, later, jump, 1_100).unwrap();
    assert_eq!(e.len(), 1);
    assert_eq!(ws.msg_timestamps, [1_000, 1_200, 1_100]);
    WsSession::on_sign_of_life(&mut state, 9_000);
    assert_eq!(state.latency.polymarket_last_msg_ms, 9_000);
}

#[test]
fn binance_trades_move_the_state() {
    let cfg = config();
    assert!(windows_are_in_range(&cfg));
    let mut s = BinanceSession::new();
    let mut state = MarketState::default();
    let raw = r#"{"E":1000,"p":"100","q":"2","T":990,"m":false}"#;
    let e = s.handle_trade_message(&mut state, &cfg, raw, 1_100).ok().unwrap();
    assert_eq!(e.len(), 2);
    assert!(matches!(
        e[1],
        MarketEvent::LatencyAlert { source: FeedSource::Binance, latency_ms: 100 }
    ));
    assert_eq!(f(state.btc.price), 100.0);
    assert_eq!(f(state.latency.binance_tick_rate), 0.2);
    let t = normalize_binance_trade(r#"{"E":1000,"p":"100","q":"2","T":990}"#).ok().unwrap();
    s.handle_trade(&mut state, &cfg, t, 1_300);
    assert_eq!(state.latency.binance_ms, 200);
    let t = normalize_binance_trade(r#"{"E":1000,"p":"100","q":"2","T":990}"#).ok().unwrap();
    s.handle_trade(&mut state, &cfg, t, 60_000);
    assert_eq!(state.latency.binance_ms, 200);
    assert_eq!(s.msg_timestamps.len(), 1);
    assert!(s.handle_trade_message(&mut state, &cfg, "nope", 61_000).is_err());
    for i in 0..20 {
        let t = normalize_binance_trade(r#"{"E":61000,"p":"100","q":"2","T":61000}"#).ok().unwrap();
        s.handle_trade(&mut state, &cfg, t, 61_000 + i);
        assert!(s.latency_window.len() <= 10);
        assert!(state.latency.binance_ms < 5_000);
    }
}

#[test]
fn pings_measure_the_way() {
    let mut s = BinanceSession::new();
    let mut state = MarketState::default();
    s.on_pong(&mut state, 50);
    assert_eq!(state.latency.binance_ping_ms, 0);
    s.on_ping_sent(100);
    s.on_pong(&mut state, 140);
    assert_eq!(state.latency.binance_ping_ms, 40);
    s.on_pong(&mut state, 900);
    assert_eq!(state.latency.binance_ping_ms, 40);
}

#[test]
fn a_window_beyond_the_clock_is_noticed() {
    let mut cfg = config();
    cfg.state.btc_tick_window_secs = u64::MAX;
    assert!(!windows_are_in_range(&cfg));
}

#[test]
fn a_clock_that_was_set_back_is_borne() {
    let cfg = config();
    let mut s = BinanceSession::new();
    let mut state = MarketState::default();
    for (at, kept) in [(1_000, 1), (2_000, 2), (1_500, 3), (0, 4), (11_900, 3)] {
        let raw = r#"{"E":1000,"p":"100","q":"2","T":990,"m":false}"#;
        s.handle_trade_message(&mut state, &cfg, raw, at).ok().unwrap();
        if at < 10_000 {
            assert_eq!(s.msg_timestamps.len(), kept);
        }
    }
    assert!(s.msg_timestamps.len() < 5);
}

#[test]
fn windows_of_held_and_published_markets_are_whole() {
    let whole = |m: &Btc5mMarket| {
        m.window_start_unix % 300 == 0 && m.window_end_unix == m.window_start_unix + 300
    };
    let mut t = Btc5mTracker::new(d(1748823890.5), 0);
    let mut state = MarketState::default();
    let next = t.prefetch_due(&state, 10, 30).unwrap();
    assert_eq!(next, 1748823900);
    let body = r#"[{"conditionId":"0xc","slug":"btc-updown-5m-1748823900","question":"q",
        "active":true,"closed":false,"clobTokenIds":"[\"ty\",\"tn\"]"}]"#;
    let (gamma, mapping) = match read_market_reply(body) {
        MarketReply::Found { market, mapping } => (market, mapping),
        _ => panic!(),
    };
    let event = store_next(&mut state, new_market(gamma, mapping, next, 10, 7), 7);
    assert!(matches!(&event, MarketEvent::MarketCycleEvent(e) if whole(&e.market)));
    assert!(whole(state.next_market.as_ref().unwrap()));
    let r = t.begin_rollover(&mut state, d(1748823901.0));
    let m = r.prefetched.unwrap();
    assert!(whole(&m));
    let mut validator = PriceValidator::new();
    let quote = (d(0.5), d(0.01));
    let events =
        t.activate(&mut state, &mut validator, m, quote, 1, 299, 30, d(1748823901.0), 8, 9);
    assert!(matches!(&events[1], MarketEvent::PolymarketUpdate(m) if whole(m)));
    assert!(whole(t.active_market.as_ref().unwrap()));
    assert!(whole(state.btc5m_market.as_ref().unwrap()));
    let events = t.tick_active(&mut state, 20, 30, d(1748824180.0));
    assert!(matches!(&events[0], MarketEvent::PolymarketUpdate(m) if whole(m)));
    let r = t.begin_rollover(&mut state, d(1748824200.0));
    assert!(matches!(&r.events[1], MarketEvent::MarketCycleEvent(e) if whole(&e.market)));
    assert_eq!(t.current_window_ts, 1748824200);
}
