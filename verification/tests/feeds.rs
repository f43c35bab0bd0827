use polytrade::config::FeedsConfig;
use polytrade::json::Json;
use polytrade::market_data::binance;
use polytrade::market_data::btc5m_tracker;
use polytrade::market_data::btc5m_tracker::{
    ClobBook, MarketReply, MarketSearch, MidpointError, TokenError,
};
use polytrade::market_data::clock_sync::{self, PolymarketClock};
use polytrade::market_data::normalizer::{
    compute_time_remaining, compute_time_remaining_at, gamma_market_to_state,
    gamma_market_to_state_at, is_ws_control_message, normalize_binance_trade,
    normalize_gamma_market_at, normalize_polymarket_ws_msg, now_millis, TradeError,
};
use polytrade::market_data::polymarket::{self, CycleEnd};
use polytrade::market_data::price_validator::{
    rejection_text, PriceRejectReason, PriceSource, PriceUpdate, PriceValidator,
};
use polytrade::market_data::reconnect::{next_backoff, Pause};
use polytrade::market_data::state::{MarketState, TradeSide};
use polytrade::numeric::Double;
use polytrade::text::{holds, same_word, signed_text, strip_slashes, trim};
use polytrade::time::{millis_at, now_seconds, seconds_at};

fn d(x: f64) -> Double {
    Double::from_bits(x.to_bits())
}

fn f(x: Double) -> f64 {
    f64::from_bits(x.to_bits())
}

#[test]
fn a_binance_trade_is_read() {
    let raw = r#"{"e":"trade","E":1700000000123,"s":"BTCUSDT","p":"67250.50","q":"0.25","T":1700000000120,"m":true}"#;
    let t = normalize_binance_trade(raw).unwrap();
    assert_eq!(f(t.price), 67250.5);
    assert_eq!(f(t.quantity), 0.25);
    assert!(matches!(t.side, TradeSide::Sell));
    assert_eq!(t.timestamp_ms, 1700000000120);
    assert_eq!(t.event_time_ms, 1700000000123);
    let raw = r#"{"E":2,"p":"1","q":"2","T":1,"m":false}"#;
    assert!(matches!(normalize_binance_trade(raw).unwrap().side, TradeSide::Buy));
    let raw = r#"{"E":2,"p":"1","q":"2","T":1}"#;
    assert!(matches!(normalize_binance_trade(raw).unwrap().side, TradeSide::Buy));
}

#[test]
fn a_bad_binance_trade_is_refused() {
    let e = |raw: &str| normalize_binance_trade(raw).err().unwrap();
    assert!(matches!(e("{"), TradeError::NotJson));
    assert!(matches!(e(r#"{"q":"1","T":1,"E":1}"#), TradeError::MissingPrice));
    assert!(matches!(e(r#"{"p":1,"q":"1","T":1,"E":1}"#), TradeError::MissingPrice));
    assert!(matches!(e(r#"{"p":"x","q":"1","T":1,"E":1}"#), TradeError::BadPrice));
    assert!(matches!(e(r#"{"p":"1","T":1,"E":1}"#), TradeError::MissingQuantity));
    assert!(matches!(e(r#"{"p":"1","q":"","T":1,"E":1}"#), TradeError::BadQuantity));
    assert!(matches!(e(r#"{"p":"1","q":"1","T":-1,"E":1}"#), TradeError::MissingTradeTime));
    assert!(matches!(e(r#"{"p":"1","q":"1","T":1,"E":"1"}"#), TradeError::MissingEventTime));
}

#[test]
fn control_messages_are_recognised() {
    for raw in ["INVALID OPERATION", "PONG", "PING", "", "  PONG \n", "\t"] {
        assert!(is_ws_control_message(raw));
        assert!(matches!(normalize_polymarket_ws_msg(raw), Ok(None)));
    }
    assert!(!is_ws_control_message("pong"));
    assert!(!is_ws_control_message("{}"));
    assert!(normalize_polymarket_ws_msg("pong").is_err());
}

#[test]
fn a_book_gives_its_middle() {
    let raw = r#"{"event_type":"book","asset_id":"tok","sequence":7,
        "bids":[{"price":"0.48"},{"price":"0.50"},{"price":"bad"}],
        "asks":[{"price":"0.56"},{"price":0.54}]}"#;
    let u = normalize_polymarket_ws_msg(raw).unwrap().unwrap();
    assert_eq!(u.token_id, "tok");
    assert_eq!(f(u.price), (0.50 + 0.54) / 2.0);
    assert_eq!(f(u.spread), (0.54f64 - 0.50).abs());
    assert_eq!(u.sequence, Some(7));
}

#[test]
fn a_crossed_or_empty_book_gives_nothing() {
    for raw in [
        r#"{"event_type":"book","asset_id":"t","bids":[{"price":"0.6"}],"asks":[{"price":"0.5"}]}"#,
        r#"{"event_type":"book","asset_id":"t","bids":[],"asks":[{"price":"0.5"}]}"#,
        r#"{"event_type":"book","asset_id":"t","bids":[{"price":"0.5"}],"asks":[{"price":"1"}]}"#,
        r#"{"event_type":"book","asset_id":"t"}"#,
        r#"{"event_type":"tick_size_change","asset_id":"t"}"#,
        r#"{"event_type":"other","asset_id":"t","price":"0.5"}"#,
        r#"{"event_type":"price_change","asset_id":"t","changes":[]}"#,
        r#"{"event_type":"price_change"}"#,
        r#"{"asset_id":"t"}"#,
        r#"[1,2]"#,
    ] {
        assert!(matches!(normalize_polymarket_ws_msg(raw), Ok(None)), "{raw}");
    }
}

#[test]
fn price_changes_and_last_trades_are_read() {
    let price = |raw: &str| f(normalize_polymarket_ws_msg(raw).unwrap().unwrap().price);
    assert_eq!(price(r#"{"event_type":"last_trade_price","asset_id":"t","price":"0.65"}"#), 0.65);
    assert_eq!(price(r#"{"event_type":"last_trade_price","asset_id":"t","price":0.66}"#), 0.66);
    assert_eq!(price(r#"{"event_type":"price_change","asset_id":"t","price":"0.42"}"#), 0.42);
    assert_eq!(
        price(
            r#"{"event_type":"price_change","asset_id":"t","changes":[{"price":"0.1"},{"price":"0.2"}]}"#
        ),
        0.2
    );
}

#[test]
fn the_time_to_an_end_date_is_counted() {
    let at = |end: &str, offset: f64, secs: u64, nanos: u32| {
        compute_time_remaining_at(end, d(offset), Some((secs, nanos)))
    };
    assert_eq!(at("2024-01-01T00:00:10Z", 0.0, 1704067200, 0), 10);
    assert_eq!(at("2024-01-01T00:00:10Z", 3.0, 1704067200, 0), 7);
    assert_eq!(at("2024-01-01T00:00:10Z", 0.0, 1704067200, 500_000_000), 9);
    assert_eq!(at("2024-01-01T00:00:10Z", 0.0, 1704067215, 500_000_000), -5);
    assert_eq!(at("2024-01-01T02:00:10+02:00", 0.0, 1704067200, 0), 10);
    assert_eq!(at("", 0.0, 1704067200, 0), i64::MAX);
    assert_eq!(at("tomorrow", 0.0, 1704067200, 0), i64::MAX);
    assert!(compute_time_remaining("2024-01-01T00:00:00Z", d(0.0)) < 0);
}

fn feeds(keyword: &str, min: i64, max: i64) -> FeedsConfig {
    FeedsConfig {
        binance_ws: String::new(),
        polymarket_rest: "https://rest".to_string(),
        polymarket_ws: String::new(),
        market_filter_min_secs: min,
        market_filter_max_secs: max,
        market_keyword_filter: keyword.to_string(),
    }
}

const MARKETS: &str = r#"{"data":[
    {"conditionId":"c1","question":"BTC up?","clobTokenIds":"[\"y1\",\"n1\"]",
     "outcomePrices":"[\"0.6\",\"0.4\"]","outcomes":"[\"YES\",\"no\"]","volume24hr":12.5,
     "bestAsk":"0.62","bestBid":0.58},
    {"conditionId":"c2","question":"Will Bitcoin rise?","clobTokenIds":["n2","y2"],
     "outcomePrices":["0.3","0.7"],"outcomes":["No","Yes"],"volume":"99"},
    {"conditionId":"c3","question":"Rain?","tokens":[
        {"outcome":"Yes","price":"0.1","token_id":"y3"},
        {"outcome":"No","price":0.9,"token_id":"n3"}]},
    {"conditionId":"c4","question":"BTC without prices"},
    {"question":"BTC without identifier","tokens":[]}
]}"#;

#[test]
fn markets_are_read_and_filtered() {
    let all = polymarket::read_markets(MARKETS, &feeds("", i64::MIN, i64::MAX)).unwrap();
    let ids: Vec<&str> = all.iter().map(|m| m.market_id.as_str()).collect();
    assert_eq!(ids, ["c1", "c2", "c3"]);
    assert_eq!(f(all[0].yes_price), 0.6);
    assert_eq!(f(all[0].no_price), 0.4);
    assert_eq!(all[0].yes_token_id, "y1");
    assert_eq!(all[0].no_token_id, "n1");
    assert_eq!(f(all[0].spread), (0.62f64 - 0.58).abs());
    assert_eq!(f(all[0].volume_24h), 12.5);
    assert_eq!(all[0].time_remaining_secs, i64::MAX);
    assert_eq!(all[1].yes_token_id, "y2");
    assert_eq!(f(all[1].yes_price), 0.7);
    assert_eq!(f(all[1].volume_24h), 99.0);
    assert_eq!(f(all[2].yes_price), 0.1);
    assert_eq!(f(all[2].no_price), 0.9);

    let btc = polymarket::read_markets(MARKETS, &feeds("BTC", i64::MIN, i64::MAX)).unwrap();
    let ids: Vec<&str> = btc.iter().map(|m| m.market_id.as_str()).collect();
    assert_eq!(ids, ["c1", "c2"]);

    assert!(polymarket::read_markets(MARKETS, &feeds("", 0, 300)).unwrap().is_empty());
    assert!(polymarket::read_markets("[]", &feeds("", 0, 300)).unwrap().is_empty());
    assert!(polymarket::read_markets("nope", &feeds("", 0, 300)).is_none());
    assert_eq!(polymarket::markets_url("https://rest"), "https://rest/markets?active=true&tag=crypto");
}

#[test]
fn a_market_without_an_identifier_is_none() {
    let v = Json::Object { text: String::new(), fields: Vec::new() };
    assert!(normalize_gamma_market_at(&v, None).is_none());
}

#[test]
fn tracked_markets_follow_the_feed() {
    let markets = polymarket::read_markets(MARKETS, &feeds("", i64::MIN, i64::MAX)).unwrap();
    let mut state = MarketState::default();
    assert_eq!(polymarket::seed_state(&mut state, &markets, 5).len(), 3);
    assert_eq!(state.polymarkets.len(), 3);
    assert_eq!(state.last_updated_ms, 5);
    assert_eq!(polymarket::seed_state(&mut state, &markets, 5).len(), 3);
    assert_eq!(state.polymarkets.len(), 3);
    assert_eq!(gamma_market_to_state_at(&markets[0], 5).last_updated_ms, 5);
    assert!(gamma_market_to_state(&markets[0]).last_updated_ms > 5);

    let routes = polymarket::build_routes(&markets);
    assert_eq!(routes.len(), 6);
    assert_eq!(
        polymarket::assets_subscription(&routes).unwrap(),
        r#"{"assets_ids":["y1","n1","y2","n2","y3","n3"],"type":"subscribe"}"#
    );
    assert!(polymarket::assets_subscription(&Vec::new()).is_none());

    let raw = r#"{"event_type":"last_trade_price","asset_id":"n1","price":"0.45"}"#;
    let event = polymarket::handle_ws_message(&routes, &mut state, raw, 25).unwrap();
    assert!(event.is_some());
    let m = state.polymarkets.iter().find(|m| m.market_id == "c1").unwrap();
    assert_eq!(f(m.no_price), 0.45);
    assert_eq!(f(m.yes_price), 0.6);
    assert_eq!(m.last_updated_ms, 25);
    assert_eq!(state.latency.polymarket_ms, 20);

    let raw = r#"{"event_type":"last_trade_price","asset_id":"zz","price":"0.45"}"#;
    assert!(polymarket::handle_ws_message(&routes, &mut state, raw, 30).unwrap().is_none());
    assert!(polymarket::handle_ws_message(&routes, &mut state, "?", 30).is_err());

    for m in state.polymarkets.iter_mut() {
        m.time_remaining_secs = if m.market_id == "c3" { 10 } else { 1000 };
    }
    let fresh = polymarket::read_markets("[]", &feeds("", 0, 0)).unwrap();
    assert!(polymarket::refresh_state_from_rest(&mut state, &fresh, 60, 40).is_empty());
    let ids: Vec<&str> = state.polymarkets.iter().map(|m| m.market_id.as_str()).collect();
    assert!(!ids.contains(&"c3"));
    assert_eq!(ids.len(), 2);
}

fn update(yes: f64, at: u64, source: PriceSource, sequence: Option<u64>) -> PriceUpdate {
    PriceUpdate {
        yes_price: d(yes),
        no_price: d(1.0 - yes),
        received_at_ms: at,
        source,
        sequence_number: sequence,
    }
}

#[test]
fn the_first_price_is_accepted() {
    let mut v = PriceValidator::new();
    assert!(v.validate(&update(0.99, 1, PriceSource::RestSnapshot, None), d(0.0), false).is_ok());
    assert_eq!(v.last_valid_at_ms, 1);
}

#[test]
fn a_jump_is_refused_for_three_seconds() {
    let mut v = PriceValidator::new();
    let live = PriceSource::WebSocketLive;
    v.validate(&update(0.5, 1000, live, None), d(0.15), false).unwrap();
    let r = v.validate(&update(0.9, 1500, live, None), d(0.15), false);
    match r {
        Err(PriceRejectReason::SuspiciousJump { change, time_ms, allowed }) => {
            assert_eq!(f(change), (0.9f64 - 0.5).abs());
            assert_eq!(time_ms, 500);
            assert_eq!(f(allowed), 0.15 * 0.1);
        }
        _ => panic!(),
    }
    assert_eq!(v.last_valid_at_ms, 1000);
    assert!(v.validate(&update(0.9, 4000, live, None), d(0.15), false).is_ok());
}

#[test]
fn a_snapshot_behind_a_live_price_is_stale() {
    let mut v = PriceValidator::new();
    v.validate(&update(0.5, 1000, PriceSource::WebSocketLive, None), d(0.15), false).unwrap();
    let rest = update(0.5, 1700, PriceSource::RestSnapshot, None);
    assert!(matches!(v.validate(&rest, d(0.15), false), Err(PriceRejectReason::StaleSnapshot)));
    assert!(v.validate(&rest, d(0.15), true).is_ok());
}

#[test]
fn sequence_numbers_have_to_grow() {
    let mut v = PriceValidator::new();
    let live = PriceSource::WebSocketLive;
    v.validate(&update(0.5, 1000, live, Some(7)), d(0.15), false).unwrap();
    assert!(matches!(
        v.validate(&update(0.5, 1100, live, Some(7)), d(0.15), false),
        Err(PriceRejectReason::OutOfSequence { received: 7, last: 7 })
    ));
    assert!(v.validate(&update(0.5, 1100, live, None), d(0.15), false).is_ok());
    assert_eq!(PriceSource::Interpolated.as_str(), "Interpolated");
}

#[test]
fn the_server_time_is_read() {
    let read = |s: &str| clock_sync::read_server_time(s).map(f);
    assert_eq!(read(r#"{"time": 1700000000.5}"#), Some(1700000000.5));
    assert_eq!(read(r#"{"time": "1700000001"}"#), Some(1700000001.0));
    assert_eq!(read(" 1700000002\n"), Some(1700000002.0));
    assert_eq!(read(r#"{"time": "soon"}"#), None);
    assert_eq!(read(r#"{"now": 1}"#), None);
    assert_eq!(read("soon"), None);
    assert_eq!(clock_sync::time_url("https://clob/"), "https://clob/time");
}

#[test]
fn windows_start_on_multiples_of_their_length() {
    assert_eq!(clock_sync::window_ts(d(1748823712.9)), 1748823600);
    assert_eq!(clock_sync::window_ts(d(1748823600.0)), 1748823600);
    assert_eq!(clock_sync::window_ts(d(-5.0)), 0);
    assert_eq!(clock_sync::secs_left(d(1748823712.9)), Some(188));
    assert_eq!(clock_sync::secs_left(d(1748823600.0)), Some(300));
    assert_eq!(clock_sync::secs_left(d(1e30)), None);
    assert_eq!(clock_sync::next_window(d(1748823712.9)), Some(1748823900));
    assert_eq!(clock_sync::next_window(d(1748823900.0)), Some(1748824200));
    assert_eq!(clock_sync::next_window(d(-5.0)), Some(300));
    assert_eq!(clock_sync::next_window(d(1e30)), None);
}

#[test]
fn the_clock_follows_the_server() {
    let mut clock = PolymarketClock::new(60);
    assert!(clock.needs_sync(0));
    assert!(clock.apply_sync(d(1000.0), d(990.0), 5_000_000_000).is_none());
    assert_eq!(clock.offset_ms(), 10_000);
    assert_eq!(f(clock.now_at(d(995.0))), 1005.0);
    assert!(!clock.needs_sync(64_000_000_000));
    assert!(clock.needs_sync(65_000_000_000));
    assert!(clock.apply_sync(d(1016.0), d(1001.0), 70_000_000_000).is_none());
    assert_eq!(clock.apply_sync(d(1030.0), d(1001.0), 80_000_000_000).map(f), Some(14.0));
    let mut here = PolymarketClock::new(60);
    here.apply_sync(d(100.0), d(0.0), 0);
    let now = f(here.now());
    assert!((now - f(now_seconds()) - 100.0).abs() < 1.0);
    assert_eq!(here.current_window_ts() % 300, 0);
    assert_eq!(here.next_window_ts().unwrap() % 300, 0);
    assert!(here.secs_remaining().unwrap() <= 300);
}

#[test]
fn the_wall_clock_runs() {
    let a = now_millis();
    assert!(a > 1_700_000_000_000);
    assert!(now_millis() >= a);
    assert!((f(now_seconds()) - a as f64 / 1000.0).abs() < 5.0);
}

#[test]
fn a_reading_of_the_clock_is_converted() {
    assert_eq!(millis_at(Some((1_748_823_712, 987_654_321))), 1_748_823_712_987);
    assert_eq!(millis_at(Some((0, 999_999))), 0);
    assert_eq!(millis_at(None), 0);
    assert_eq!(f(seconds_at(Some((1_748_823_712, 500_000_000)))), 1_748_823_712.5);
    assert_eq!(f(seconds_at(Some((3, 0)))), 3.0);
    assert_eq!(f(seconds_at(None)), 0.0);
}

const MARKET: &str = r#"[{"conditionId":"0xc","slug":"btc-updown-5m-1748823600",
    "question":"BTC up?","active":true,"closed":false,
    "clobTokenIds":"[\"a\",\"b\"]","volume24hrClob":"55.5",
    "tokens":[{"outcome":"DOWN","token_id":"tn"},{"outcome":"Up","tokenId":"ty"}]}]"#;

#[test]
fn a_market_reply_is_read() {
    match btc5m_tracker::read_market_reply(MARKET) {
        MarketReply::Found { market, mapping } => {
            assert_eq!(market.condition_id, "0xc");
            assert_eq!(market.slug, "btc-updown-5m-1748823600");
            assert!(market.active && !market.closed);
            assert_eq!(f(market.volume_24h), 55.5);
            assert_eq!(mapping.yes_token_id, "ty");
            assert_eq!(mapping.no_token_id, "tn");
            assert_eq!(mapping.yes_outcome, "up");
            assert_eq!(mapping.no_outcome, "down");
        }
        _ => panic!(),
    }
    assert!(matches!(btc5m_tracker::read_market_reply("[]"), MarketReply::Absent));
    assert!(matches!(btc5m_tracker::read_market_reply("{}"), MarketReply::Absent));
    assert!(matches!(btc5m_tracker::read_market_reply("no"), MarketReply::Absent));
    assert!(matches!(btc5m_tracker::read_market_reply(r#"[{"slug":"s"}]"#), MarketReply::Undecodable));
    let listed = r#"[["0xc","s","q",true,false,"[\"a\",\"b\"]",7]]"#;
    match btc5m_tracker::read_market_reply(listed) {
        MarketReply::Found { market, mapping } => {
            assert_eq!(market.slug, "s");
            assert_eq!(f(market.volume_24h), 7.0);
            assert_eq!(mapping.yes_token_id, "a");
        }
        _ => panic!(),
    }
}

fn reply(tokens: &str, ids: &str) -> MarketReply {
    let body = format!(
        r#"[{{"conditionId":"c","slug":"s","question":"q","active":true,"closed":false,"clobTokenIds":{ids}{tokens}}}]"#
    );
    btc5m_tracker::read_market_reply(&body)
}

#[test]
fn tokens_fall_back_to_the_order_of_the_outcomes() {
    match reply(r#","outcomes":"[\"Down\",\"Up\"]""#, r#""[\"a\",\"b\"]""#) {
        MarketReply::Found { mapping, .. } => {
            assert_eq!(mapping.yes_token_id, "b");
            assert_eq!(mapping.no_token_id, "a");
            assert_eq!(mapping.yes_outcome, "up");
        }
        _ => panic!(),
    }
    match reply("", r#""[\"a\",\"b\"]""#) {
        MarketReply::Found { mapping, .. } => {
            assert_eq!(mapping.yes_token_id, "a");
            assert_eq!(mapping.no_outcome, "no");
        }
        _ => panic!(),
    }
    assert!(matches!(
        reply(r#","tokens":[{"outcome":"Yes"}]"#, r#""[\"a\",\"b\"]""#),
        MarketReply::NoTokens(TokenError::MissingTokenId)
    ));
    assert!(matches!(reply("", r#""oops""#), MarketReply::NoTokens(TokenError::BadTokenIds)));
    assert!(matches!(
        reply("", r#""[\"a\"]""#),
        MarketReply::NoTokens(TokenError::TooFewTokenIds)
    ));
}

#[test]
fn a_search_ends_after_its_attempts() {
    let mut s = MarketSearch::new(2);
    assert_eq!(s.next_attempt(), Some(1));
    assert_eq!(s.next_attempt(), Some(2));
    assert_eq!(s.next_attempt(), None);
    assert_eq!(MarketSearch::new(0).next_attempt(), None);
}

#[test]
fn requests_are_addressed() {
    assert_eq!(btc5m_tracker::market_url("https://g//", "s"), "https://g/markets?slug=s");
    assert_eq!(btc5m_tracker::midpoint_url("https://c/", "t"), "https://c/midpoint?token_id=t");
    assert_eq!(btc5m_tracker::book_url("https://c", "t"), "https://c/book?token_id=t");
    assert_eq!(btc5m_tracker::market_slug(1748823600), "btc-updown-5m-1748823600");
    assert_eq!(
        btc5m_tracker::market_subscription("a\"b"),
        r#"{"auth":{},"markets":["a\"b"],"type":"subscribe"}"#
    );
    assert_eq!(
        btc5m_tracker::market_subscription("\\\u{8}\t\n\u{c}\r\u{0}\u{1f}\u{7f}/é"),
        "{\"auth\":{},\"markets\":[\"\\\\\\b\\t\\n\\f\\r\\u0000\\u001f\u{7f}/é\"],\"type\":\"subscribe\"}"
    );
    assert_eq!(
        btc5m_tracker::token_subscription("y", "n"),
        r#"{"assets_ids":["y","n"],"auth":{},"type":"subscribe"}"#
    );
}

#[test]
fn delays_double_up_to_a_limit() {
    assert_eq!(next_backoff(1, 30), 2);
    assert_eq!(next_backoff(8, 30), 16);
    assert_eq!(next_backoff(16, 30), 30);
    assert_eq!(next_backoff(30, 30), 30);
}

#[test]
fn midpoints_are_read() {
    assert_eq!(btc5m_tracker::read_midpoint(r#"{"mid":"0.515"}"#).ok().map(f), Some(0.515));
    assert!(matches!(btc5m_tracker::read_midpoint("x"), Err(MidpointError::NotJson)));
    assert!(matches!(
        btc5m_tracker::read_midpoint(r#"{"mid":0.5}"#),
        Err(MidpointError::MissingMid)
    ));
    assert!(matches!(
        btc5m_tracker::read_midpoint(r#"{"mid":"?"}"#),
        Err(MidpointError::BadMid)
    ));
}

#[test]
fn quotes_come_from_the_midpoint_or_the_book() {
    let s = |x: &str| vec![x.to_string()];
    let q = btc5m_tracker::book_quote(&s("0.4"), &s("0.5"));
    assert_eq!((f(q.0), f(q.1)), ((0.4 + 0.5) / 2.0, (0.5f64 - 0.4).abs()));
    let q = btc5m_tracker::book_quote(&s("0.4"), &vec![]);
    assert_eq!((f(q.0), f(q.1)), (0.4, 0.4));
    let q = btc5m_tracker::initial_quote(Some(d(0.6)), None);
    assert_eq!((f(q.0), f(q.1)), (0.6, 0.01));
    let q = btc5m_tracker::initial_quote(None, Some((d(0.7), d(0.03))));
    assert_eq!((f(q.0), f(q.1)), (0.7, 0.03));
    let q = btc5m_tracker::initial_quote(None, None);
    assert_eq!((f(q.0), f(q.1)), (0.5, 0.01));
}

#[test]
fn a_second_midpoint_comes_before_the_book() {
    let book = Some(ClobBook {
        bids: vec!["0.4".to_string(), "0.3".to_string()],
        asks: vec!["0.5".to_string()],
    });
    let q = |m: Option<f64>, b: &Option<ClobBook>| {
        btc5m_tracker::fallback_quote(m.map(d), b).map(|q| (f(q.0), f(q.1)))
    };
    assert_eq!(q(Some(0.6), &book), Some((0.6, 0.0)));
    assert_eq!(q(None, &book), Some(((0.4 + 0.5) / 2.0, (0.5f64 - 0.4).abs())));
    let bad = Some(ClobBook { bids: vec!["?".to_string()], asks: vec![] });
    assert_eq!(q(None, &bad), Some((0.0, 0.0)));
    assert_eq!(q(None, &None), None);
}

#[test]
fn feeds_wait_before_they_connect_again() {
    let p = |delay_secs, backoff_secs, announced| Pause { delay_secs, backoff_secs, announced };
    assert_eq!(binance::after_stream(1), p(1, 2, true));
    assert_eq!(binance::after_stream(32), p(32, 60, true));
    assert_eq!(binance::after_stream(60), p(60, 60, true));
    assert_eq!(btc5m_tracker::after_socket(8), p(8, 16, false));
    assert_eq!(btc5m_tracker::after_socket(16), p(16, 30, false));
    assert_eq!(polymarket::after_cycle(CycleEnd::FetchFailed, 4), p(4, 8, false));
    assert_eq!(polymarket::after_cycle(CycleEnd::NoMarkets, 4), p(60, 4, false));
    assert_eq!(polymarket::after_cycle(CycleEnd::Closed, 4), p(0, 1, false));
    assert_eq!(polymarket::after_cycle(CycleEnd::Failed, 16), p(16, 30, true));
}

#[test]
fn rejections_are_put_into_words() {
    let stale = PriceRejectReason::StaleSnapshot;
    let order = PriceRejectReason::OutOfSequence { received: 3, last: 17 };
    let jump = PriceRejectReason::SuspiciousJump { change: d(0.5), time_ms: 9, allowed: d(0.1) };
    assert_eq!(stale.text().unwrap(), "stale REST snapshot after live WS price received");
    assert_eq!(order.text().unwrap(), "out of sequence: received=3, last=17");
    assert!(jump.text().is_none() && jump.record_text().is_none());
    assert_eq!(stale.record_text().unwrap(), format!("{stale:?}"));
    assert_eq!(order.record_text().unwrap(), format!("{order:?}"));
    assert_eq!(
        rejection_text(&order.record_text().unwrap(), PriceSource::WebSocketLive),
        "[price_validator] REJECTED update: OutOfSequence { received: 3, last: 17 }"
    );
    assert_eq!(
        rejection_text("x", PriceSource::RestSnapshot),
        "[price_validator] REJECTED REST update: x"
    );
}

#[test]
fn texts_are_compared_and_cut() {
    assert!(same_word("YeS", "yes"));
    assert!(!same_word("yes", "ye"));
    assert_eq!(trim(" \t a b\n"), "a b");
    assert_eq!(strip_slashes("a/b//"), "a/b");
    assert_eq!(signed_text(-120), "-120");
    assert_eq!(signed_text(i64::MIN), "-9223372036854775808");
    assert!(holds("will bitcoin rise", "bitcoin"));
    assert!(holds("x", ""));
    assert!(!holds("bit", "bitcoin"));
}
