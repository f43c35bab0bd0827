//! What is written to Redis: commands for events, and records of named fields.
//!
//! | command | key | contents |
//! |---|---|---|
//! | publish | `polytrade:btc:tick` | each tick |
//! | publish | `polytrade:market:{id}` | each change of a market |
//! | publish | `polytrade:events` | envelopes with a type |
//! | set, expiring | `polytrade:state:market:{id}` | the market |
//! | set, expiring | `polytrade:edge:snapshot` | the edge |
//! | hash | `polytrade:latency:{feed}` | the latency |
//! | list | `polytrade:paper:trades` | closed trades |
use vstd::prelude::*;

use crate::config::AppConfig;
use crate::events::bus::{EdgeSnapshot, FeedSource, MarketEvent, MissingReason};
use crate::json::{json_quoted, quote};
use crate::market_data::state::{Btc5mMarket, MarketPhase, MarketState};
use crate::numeric::Double;
use crate::numeric::order::{law_integer_is_a_number, law_product_with_one};
use crate::paper::simulator::ClosedTrade;
use crate::paper::stats::PaperStats;
use crate::probability::edge::Direction;
use crate::strategy::engine::{broadcast_of, TickSnapshot};
use crate::strategy::session::{SessionState, ThresholdMode};
use crate::text::{decimal, decimal_text, signed_decimal, signed_text};

verus! {

/// One command to the server.
#[derive(Debug)]
pub enum RedisCommand {
    Publish { channel: String, payload: String },
    Store { key: String, value: String },
    SetEx { key: String, secs: u64, value: String },
    HSet { key: String, field: String, count: u64 },
    /// Pushes to the front of a list and trims it to a length.
    PushTrimmed { key: String, value: String, max_len: u64 },
    Increment { key: String },
    /// Deletes every key of a pattern.
    DeleteMatching { pattern: String },
}

/// The contents of a command.
pub enum CommandView {
    Publish { channel: Seq<char>, payload: Seq<char> },
    Store { key: Seq<char>, value: Seq<char> },
    SetEx { key: Seq<char>, secs: u64, value: Seq<char> },
    HSet { key: Seq<char>, field: Seq<char>, count: u64 },
    PushTrimmed { key: Seq<char>, value: Seq<char>, max_len: u64 },
    Increment { key: Seq<char> },
    DeleteMatching { pattern: Seq<char> },
}

impl View for RedisCommand {
    type V = CommandView;

    open spec fn view(&self) -> CommandView {
        match *self {
            RedisCommand::Publish { channel, payload } => CommandView::Publish {
                channel: channel@,
                payload: payload@,
            },
            RedisCommand::Store { key, value } => CommandView::Store { key: key@, value: value@ },
            RedisCommand::SetEx { key, secs, value } => CommandView::SetEx {
                key: key@,
                secs,
                value: value@,
            },
            RedisCommand::HSet { key, field, count } => CommandView::HSet {
                key: key@,
                field: field@,
                count,
            },
            RedisCommand::PushTrimmed { key, value, max_len } => CommandView::PushTrimmed {
                key: key@,
                value: value@,
                max_len,
            },
            RedisCommand::Increment { key } => CommandView::Increment { key: key@ },
            RedisCommand::DeleteMatching { pattern } => CommandView::DeleteMatching {
                pattern: pattern@,
            },
        }
    }
}

/// The contents of each command.
pub open spec fn command_views(commands: Seq<RedisCommand>) -> Seq<CommandView> {
    commands.map_values(|c: RedisCommand| c@)
}

/// The texts that go with an event: what it holds as JSON, where it could be rendered,
/// the prices of its market and the reason of its rejection.
#[derive(Debug)]
pub struct EventTexts {
    pub json: Option<String>,
    pub yes_price: String,
    pub no_price: String,
    pub reason: String,
}

/// An envelope with a type around what an event holds.
pub open spec fn envelope_of(kind: Seq<char>, json: Seq<char>) -> Seq<char> {
    "{\"type\":\""@ + kind + "\",\"data\":"@ + json + "}"@
}

fn envelope(kind: &str, json: &str) -> (r: String)
    ensures
        r@ == envelope_of(kind@, json@),
{
    "{\"type\":\"".to_owned().concat(kind).concat("\",\"data\":").concat(json).concat("}")
}

/// The word for a phase.
pub open spec fn phase_word(phase: MarketPhase) -> Seq<char> {
    match phase {
        MarketPhase::PreOpen => "preopen"@,
        MarketPhase::Active => "active"@,
        MarketPhase::Final => "final"@,
        MarketPhase::Settled => "settled"@,
    }
}

fn phase_text(phase: MarketPhase) -> (r: &'static str)
    ensures
        r@ == phase_word(phase),
{
    match phase {
        MarketPhase::PreOpen => "preopen",
        MarketPhase::Active => "active",
        MarketPhase::Final => "final",
        MarketPhase::Settled => "settled",
    }
}

/// What a change of the active market writes: the market and its parts under keys of
/// their own, the market under its two names for a minute, and the market to its
/// channel. Before a market that is still to trade, the other markets' keys go.
pub open spec fn market_commands(
    m: Btc5mMarket,
    json: Seq<char>,
    yes_price: Seq<char>,
    no_price: Seq<char>,
) -> Seq<CommandView> {
    seq![
        CommandView::Store { key: "polytrade:btc5m:current"@, value: json },
        CommandView::Store { key: "polytrade:btc5m:yes_price"@, value: yes_price },
        CommandView::Store { key: "polytrade:btc5m:no_price"@, value: no_price },
        CommandView::Store { key: "polytrade:btc5m:phase"@, value: phase_word(m.phase) },
        CommandView::Store {
            key: "polytrade:btc5m:secs_remaining"@,
            value: signed_decimal(m.time_remaining_secs as int),
        },
    ] + (if m.phase == MarketPhase::Active || m.phase == MarketPhase::PreOpen {
        seq![CommandView::DeleteMatching { pattern: "polytrade:state:market:*"@ }]
    } else {
        Seq::empty()
    }) + seq![
        CommandView::SetEx {
            key: "polytrade:state:market:"@ + m.slug@,
            secs: 60,
            value: json,
        },
        CommandView::SetEx {
            key: "polytrade:state:market:"@ + m.condition_id@,
            secs: 60,
            value: json,
        },
        CommandView::Publish {
            channel: "polytrade:market:"@ + m.condition_id@,
            payload: json,
        },
    ]
}

/// The envelope that tells of a feed's outage.
pub open spec fn outage_envelope(feed: Seq<char>, down_secs: u64) -> Seq<char> {
    let secs = decimal(down_secs as nat);
    "{\"data\":{\"down_secs\":"@ + secs + ",\"feed\":"@ + json_quoted(feed) + ",\"message\":"@
        + json_quoted(feed + " feed down "@ + secs + "s+ — REST fallback active"@)
        + "},\"type\":\"feed_critical\"}"@
}

/// The envelope that tells of a rejected price.
pub open spec fn rejection_envelope(reason: Seq<char>, now_ms: u64) -> Seq<char> {
    "{\"data\":{\"reason\":"@ + json_quoted(reason) + ",\"ts_ms\":"@ + decimal(now_ms as nat)
        + "},\"type\":\"price_rejected\"}"@
}

/// A message to the channel of events.
pub open spec fn told(payload: Seq<char>) -> CommandView {
    CommandView::Publish { channel: "polytrade:events"@, payload }
}

/// The commands for an event at a time. An event whose contents could not be rendered
/// writes nothing.
pub open spec fn planned(event: MarketEvent, texts: EventTexts, now_ms: u64) -> Seq<CommandView> {
    let json = texts.json->0@;
    let rendered = texts.json is Some;
    match event {
        MarketEvent::BtcTick(_) => if rendered {
            seq![CommandView::Publish { channel: "polytrade:btc:tick"@, payload: json }]
        } else {
            Seq::empty()
        },
        MarketEvent::PolymarketUpdate(m) => if rendered {
            market_commands(m, json, texts.yes_price@, texts.no_price@)
        } else {
            Seq::empty()
        },
        MarketEvent::PolymarketStateUpdate(m) => if rendered {
            seq![
                CommandView::Publish {
                    channel: "polytrade:market:"@ + m.market_id@,
                    payload: json,
                },
                CommandView::SetEx {
                    key: "polytrade:state:market:"@ + m.market_id@,
                    secs: 60,
                    value: json,
                },
            ]
        } else {
            Seq::empty()
        },
        MarketEvent::ConnectionStatus(_, _) => Seq::empty(),
        MarketEvent::LatencyAlert { source, latency_ms } => seq![
            CommandView::HSet {
                key: "polytrade:latency:"@ + source.text(),
                field: "latency_ms"@,
                count: latency_ms,
            },
        ],
        MarketEvent::PriceRejected { .. } => seq![
            CommandView::Increment { key: "polytrade:stats:price_rejections"@ },
            told(rejection_envelope(texts.reason@, now_ms)),
        ],
        MarketEvent::MarketCycleEvent(_) => if rendered {
            seq![told(envelope_of("cycle_event"@, json))]
        } else {
            Seq::empty()
        },
        MarketEvent::PaperTradeOpen(_) => if rendered {
            seq![told(envelope_of("paper_open"@, json))]
        } else {
            Seq::empty()
        },
        MarketEvent::PaperTradeClose(trade) => if rendered {
            seq![
                CommandView::PushTrimmed {
                    key: if trade.is_suspicious {
                        "polytrade:paper:suspicious_trades"@
                    } else {
                        "polytrade:paper:trades"@
                    },
                    value: json,
                    max_len: 1000,
                },
                told(envelope_of("paper_close"@, json)),
            ]
        } else {
            Seq::empty()
        },
        MarketEvent::FeedCriticalAlert { feed, down_secs } => seq![
            told(outage_envelope(feed@, down_secs)),
        ],
        MarketEvent::EdgeSnapshot(_) => if rendered {
            seq![
                CommandView::SetEx { key: "polytrade:edge:snapshot"@, secs: 90, value: json },
                told(envelope_of("edge_snapshot"@, json)),
            ]
        } else {
            Seq::empty()
        },
    }
}

fn tell(payload: String) -> (r: RedisCommand)
    ensures
        r@ == told(payload@),
{
    RedisCommand::Publish { channel: "polytrade:events".to_owned(), payload }
}

fn set(key: &str, value: &str) -> (r: RedisCommand)
    ensures
        r@ == (CommandView::Store { key: key@, value: value@ }),
{
    RedisCommand::Store { key: key.to_owned(), value: value.to_owned() }
}

fn set_for_a_minute(name: &String, json: &String) -> (r: RedisCommand)
    ensures
        r@ == (CommandView::SetEx {
            key: "polytrade:state:market:"@ + name@,
            secs: 60,
            value: json@,
        }),
{
    RedisCommand::SetEx {
        key: "polytrade:state:market:".to_owned().concat(name.as_str()),
        secs: 60,
        value: json.clone(),
    }
}

fn publish_market(name: &String, json: &String) -> (r: RedisCommand)
    ensures
        r@ == (CommandView::Publish { channel: "polytrade:market:"@ + name@, payload: json@ }),
{
    RedisCommand::Publish {
        channel: "polytrade:market:".to_owned().concat(name.as_str()),
        payload: json.clone(),
    }
}

fn plan_market(m: &Btc5mMarket, json: &String, yes_price: &String, no_price: &String) -> (r: Vec<
    RedisCommand,
>)
    ensures
        command_views(r@) == market_commands(*m, json@, yes_price@, no_price@),
{
    let mut r: Vec<RedisCommand> = Vec::new();
    r.push(set("polytrade:btc5m:current", json.as_str()));
    r.push(set("polytrade:btc5m:yes_price", yes_price.as_str()));
    r.push(set("polytrade:btc5m:no_price", no_price.as_str()));
    r.push(set("polytrade:btc5m:phase", phase_text(m.phase)));
    r.push(
        set("polytrade:btc5m:secs_remaining", signed_text(m.time_remaining_secs).as_str()),
    );
    if m.phase == MarketPhase::Active || m.phase == MarketPhase::PreOpen {
        r.push(
            RedisCommand::DeleteMatching { pattern: "polytrade:state:market:*".to_owned() },
        );
    }
    r.push(set_for_a_minute(&m.slug, json));
    r.push(set_for_a_minute(&m.condition_id, json));
    r.push(publish_market(&m.condition_id, json));
    assert(command_views(r@) =~= market_commands(*m, json@, yes_price@, no_price@));
    r
}

fn render_outage(feed: &String, down_secs: u64) -> (r: String)
    ensures
        r@ == outage_envelope(feed@, down_secs),
{
    let secs: String = decimal_text(down_secs);
    let message: String = feed.clone().concat(" feed down ").concat(secs.as_str()).concat(
        "s+ — REST fallback active",
    );
    "{\"data\":{\"down_secs\":".to_owned().concat(secs.as_str()).concat(",\"feed\":").concat(
        quote(feed.as_str()).as_str(),
    ).concat(",\"message\":").concat(quote(message.as_str()).as_str()).concat(
        "},\"type\":\"feed_critical\"}",
    )
}

fn render_rejection(reason: &String, now_ms: u64) -> (r: String)
    ensures
        r@ == rejection_envelope(reason@, now_ms),
{
    "{\"data\":{\"reason\":".to_owned().concat(quote(reason.as_str()).as_str()).concat(
        ",\"ts_ms\":",
    ).concat(decimal_text(now_ms).as_str()).concat("},\"type\":\"price_rejected\"}")
}

/// The commands for an event at a time.
pub fn dispatch(event: &MarketEvent, texts: &EventTexts, now_ms: u64) -> (r: Vec<RedisCommand>)
    ensures
        command_views(r@) == planned(*event, *texts, now_ms),
{
    let mut r: Vec<RedisCommand> = Vec::new();
    match event {
        MarketEvent::BtcTick(_) => {
            if let Some(json) = &texts.json {
                r.push(
                    RedisCommand::Publish {
                        channel: "polytrade:btc:tick".to_owned(),
                        payload: json.clone(),
                    },
                );
            }
        },
        MarketEvent::PolymarketUpdate(m) => {
            if let Some(json) = &texts.json {
                r = plan_market(m, json, &texts.yes_price, &texts.no_price);
            }
        },
        MarketEvent::PolymarketStateUpdate(m) => {
            if let Some(json) = &texts.json {
                r.push(publish_market(&m.market_id, json));
                r.push(set_for_a_minute(&m.market_id, json));
            }
        },
        MarketEvent::ConnectionStatus(_, _) => {},
        MarketEvent::LatencyAlert { source, latency_ms } => {
            r.push(
                RedisCommand::HSet {
                    key: "polytrade:latency:".to_owned().concat(source.as_str()),
                    field: "latency_ms".to_owned(),
                    count: *latency_ms,
                },
            );
        },
        MarketEvent::PriceRejected { .. } => {
            r.push(
                RedisCommand::Increment { key: "polytrade:stats:price_rejections".to_owned() },
            );
            r.push(tell(render_rejection(&texts.reason, now_ms)));
        },
        MarketEvent::MarketCycleEvent(_) => {
            if let Some(json) = &texts.json {
                r.push(tell(envelope("cycle_event", json.as_str())));
            }
        },
        MarketEvent::PaperTradeOpen(_) => {
            if let Some(json) = &texts.json {
                r.push(tell(envelope("paper_open", json.as_str())));
            }
        },
        MarketEvent::PaperTradeClose(trade) => {
            if let Some(json) = &texts.json {
                let key: &str = if trade.is_suspicious {
                    "polytrade:paper:suspicious_trades"
                } else {
                    "polytrade:paper:trades"
                };
                r.push(
                    RedisCommand::PushTrimmed {
                        key: key.to_owned(),
                        value: json.clone(),
                        max_len: 1000,
                    },
                );
                r.push(tell(envelope("paper_close", json.as_str())));
            }
        },
        MarketEvent::FeedCriticalAlert { feed, down_secs } => {
            r.push(tell(render_outage(feed, *down_secs)));
        },
        MarketEvent::EdgeSnapshot(_) => {
            if let Some(json) = &texts.json {
                r.push(
                    RedisCommand::SetEx {
                        key: "polytrade:edge:snapshot".to_owned(),
                        secs: 90,
                        value: json.clone(),
                    },
                );
                r.push(tell(envelope("edge_snapshot", json.as_str())));
            }
        },
    }
    assert(command_views(r@) =~= planned(*event, *texts, now_ms));
    r
}

/// The lists of closed trades never grow beyond a thousand entries.
pub proof fn law_lists_are_capped(event: MarketEvent, texts: EventTexts, now_ms: u64, i: int)
    requires
        0 <= i < planned(event, texts, now_ms).len(),
        planned(event, texts, now_ms)[i] is PushTrimmed,
    ensures
        planned(event, texts, now_ms)[i]->max_len == 1000,
{
}

/// No tick is told on the channel of events.
pub proof fn law_ticks_are_not_told(
    event: MarketEvent,
    texts: EventTexts,
    now_ms: u64,
    payload: Seq<char>,
)
    requires
        event is BtcTick,
    ensures
        !planned(event, texts, now_ms).contains(told(payload)),
{
    reveal_strlit("polytrade:btc:tick");
    reveal_strlit("polytrade:events");
    assert("polytrade:btc:tick"@.len() != "polytrade:events"@.len());
}

/// The value of a named field.
#[derive(Debug)]
pub enum Field {
    Text(String),
    Real(Double),
    Count(u64),
    Signed(i64),
    Flag(bool),
    Missing(MissingReason),
}

/// The contents of a field.
pub enum FieldView {
    Text(Seq<char>),
    Real(Double),
    Count(u64),
    Signed(i64),
    Flag(bool),
    Missing(MissingReason),
}

impl View for Field {
    type V = FieldView;

    open spec fn view(&self) -> FieldView {
        match *self {
            Field::Text(s) => FieldView::Text(s@),
            Field::Real(x) => FieldView::Real(x),
            Field::Count(n) => FieldView::Count(n),
            Field::Signed(n) => FieldView::Signed(n),
            Field::Flag(b) => FieldView::Flag(b),
            Field::Missing(m) => FieldView::Missing(m),
        }
    }
}

/// The names and contents of fields.
pub open spec fn field_views(fields: Seq<(&'static str, Field)>) -> Seq<(Seq<char>, FieldView)> {
    fields.map_values(|f: (&'static str, Field)| (f.0@, f.1@))
}

/// The word for a direction; a dash where there is none.
pub open spec fn direction_word(direction: Option<Direction>) -> Seq<char> {
    match direction {
        Some(Direction::Yes) => "YES"@,
        Some(Direction::No) => "NO"@,
        None => "—"@,
    }
}

fn direction_text(direction: Option<Direction>) -> (r: String)
    ensures
        r@ == direction_word(direction),
{
    match direction {
        Some(d) => d.as_str().to_owned(),
        None => "—".to_owned(),
    }
}

/// The word for a threshold mode.
pub open spec fn mode_word(mode: ThresholdMode) -> Seq<char> {
    match mode {
        ThresholdMode::Normal => "NORMAL"@,
        ThresholdMode::Relaxed => "RELAXED"@,
        ThresholdMode::Floor => "FLOOR"@,
    }
}

/// The record of an edge snapshot at a time.
pub open spec fn snapshot_record(
    s: EdgeSnapshot,
    btc_trend: Seq<char>,
    velocity_trend: Seq<char>,
    now_ms: u64,
) -> Seq<(Seq<char>, FieldView)> {
    seq![
        ("market_id"@, FieldView::Text(s.market_id@)),
        ("question"@, FieldView::Text(s.question@)),
        ("poly_yes_pct"@, FieldView::Real(s.poly_yes_pct)),
        ("poly_no_pct"@, FieldView::Real(s.poly_no_pct)),
        ("divergence_score"@, FieldView::Real(s.divergence_score)),
        ("expected_repricing"@, FieldView::Real(s.expected_repricing)),
        ("edge_pct"@, FieldView::Real(s.edge_pct)),
        ("tradeable"@, FieldView::Flag(s.tradeable)),
        ("direction"@, FieldView::Text(direction_word(s.direction))),
        ("btc_price"@, FieldView::Real(s.btc_price)),
        ("btc_trend"@, FieldView::Text(btc_trend)),
        ("velocity_trend"@, FieldView::Text(velocity_trend)),
        ("time_remaining_secs"@, FieldView::Signed(s.time_remaining_secs)),
        ("confidence"@, FieldView::Real(s.confidence)),
        ("price_velocity"@, FieldView::Real(s.price_velocity)),
        ("volume_delta"@, FieldView::Real(s.volume_delta)),
        ("missing_reason"@, FieldView::Missing(s.missing_reason)),
        ("threshold_mode"@, FieldView::Text(mode_word(s.threshold_mode))),
        ("mins_since_last_trade"@, FieldView::Count(s.mins_since_last_trade)),
        ("active_min_edge_pct"@, FieldView::Real(s.active_min_edge_pct)),
        ("active_min_confidence"@, FieldView::Real(s.active_min_confidence)),
        ("ts_ms"@, FieldView::Count(now_ms)),
    ]
}

/// The fields of an edge snapshot at a time.
pub fn edge_snapshot_fields(s: &EdgeSnapshot, now_ms: u64) -> (r: Vec<(&'static str, Field)>)
    ensures
        field_views(r@) == snapshot_record(*s, s.btc_trend.word(), s.velocity_trend.word(), now_ms),
{
    let r: Vec<(&'static str, Field)> = vec![
        ("market_id", Field::Text(s.market_id.clone())),
        ("question", Field::Text(s.question.clone())),
        ("poly_yes_pct", Field::Real(s.poly_yes_pct)),
        ("poly_no_pct", Field::Real(s.poly_no_pct)),
        ("divergence_score", Field::Real(s.divergence_score)),
        ("expected_repricing", Field::Real(s.expected_repricing)),
        ("edge_pct", Field::Real(s.edge_pct)),
        ("tradeable", Field::Flag(s.tradeable)),
        ("direction", Field::Text(direction_text(s.direction))),
        ("btc_price", Field::Real(s.btc_price)),
        ("btc_trend", Field::Text(s.btc_trend.as_str().to_owned())),
        ("velocity_trend", Field::Text(s.velocity_trend.as_str().to_owned())),
        ("time_remaining_secs", Field::Signed(s.time_remaining_secs)),
        ("confidence", Field::Real(s.confidence)),
        ("price_velocity", Field::Real(s.price_velocity)),
        ("volume_delta", Field::Real(s.volume_delta)),
        ("missing_reason", Field::Missing(s.missing_reason)),
        ("threshold_mode", Field::Text(s.threshold_mode.as_str().to_owned())),
        ("mins_since_last_trade", Field::Count(s.mins_since_last_trade)),
        ("active_min_edge_pct", Field::Real(s.active_min_edge_pct)),
        ("active_min_confidence", Field::Real(s.active_min_confidence)),
        ("ts_ms", Field::Count(now_ms)),
    ];
    assert(field_views(r@) =~= snapshot_record(
        *s,
        s.btc_trend.word(),
        s.velocity_trend.word(),
        now_ms,
    ));
    r
}

/// The record of the latest signal at a time.
pub open spec fn signal_record(
    state: MarketState,
    market: Btc5mMarket,
    ts: TickSnapshot,
    mins_since_last_trade: u64,
) -> Seq<(Seq<char>, FieldView)> {
    let btc = state.btc;
    let latency = state.latency;
    seq![
        ("market_id"@, FieldView::Text(market.slug@)),
        ("question"@, FieldView::Text(market.question@)),
        ("poly_yes_pct"@, FieldView::Real(market.yes_price)),
        ("poly_no_pct"@, FieldView::Real(market.no_price)),
        ("divergence_score"@, FieldView::Real(ts.estimate.divergence_score)),
        ("expected_repricing"@, FieldView::Real(ts.estimate.expected_repricing)),
        ("edge_pct"@, FieldView::Real(ts.edge_score.edge_pct)),
        ("tradeable"@, FieldView::Flag(ts.edge_score.tradeable)),
        ("direction"@, FieldView::Text(direction_word(Some(ts.edge_score.direction)))),
        ("btc_price"@, FieldView::Real(btc.price)),
        ("btc_trend"@, FieldView::Text(btc.microtrend.word())),
        ("velocity_trend"@, FieldView::Text(btc.velocity_trend.word())),
        ("spread"@, FieldView::Real(market.spread)),
        ("time_remaining_secs"@, FieldView::Signed(market.time_remaining_secs)),
        ("binance_latency_ms"@, FieldView::Count(latency.binance_ms)),
        ("polymarket_latency_ms"@, FieldView::Count(latency.polymarket_ms)),
        ("clock_offset_ms"@, FieldView::Signed(latency.server_time_offset_ms)),
        ("confidence"@, FieldView::Real(ts.edge_score.confidence)),
        ("price_velocity"@, FieldView::Real(btc.price_velocity)),
        ("volume_delta"@, FieldView::Real(btc.volume_delta)),
        ("order_flow_ratio"@, FieldView::Real(btc.order_flow_ratio)),
        ("velocity_consistency"@, FieldView::Real(btc.velocity_consistency)),
        ("price_acceleration"@, FieldView::Real(btc.price_acceleration)),
        ("missing_reason"@, FieldView::Missing(ts.missing_reason)),
        ("binance_ping_ms"@, FieldView::Count(latency.binance_ping_ms)),
        ("binance_tick_rate"@, FieldView::Real(latency.binance_tick_rate)),
        ("polymarket_tick_rate"@, FieldView::Real(latency.polymarket_tick_rate)),
        ("binance_last_msg_ms"@, FieldView::Count(latency.binance_last_msg_ms)),
        ("polymarket_last_msg_ms"@, FieldView::Count(latency.polymarket_last_msg_ms)),
        ("price_rejections"@, FieldView::Count(latency.price_rejections)),
        ("fallback_mode"@, FieldView::Flag(latency.fallback_mode)),
        ("poly_last_fetched_ms"@, FieldView::Count(market.last_fetched_ms)),
        ("threshold_mode"@, FieldView::Text(mode_word(ts.threshold_mode))),
        ("mins_since_last_trade"@, FieldView::Count(mins_since_last_trade)),
        ("active_min_edge_pct"@, FieldView::Real(ts.thresholds.min_edge_pct)),
        ("active_min_confidence"@, FieldView::Real(ts.thresholds.min_confidence)),
    ]
}

/// The fields of the latest signal at a time; nothing where there is no market.
pub fn signal_fields(
    state: &MarketState,
    ts: &TickSnapshot,
    session: &SessionState,
    now_ms: u64,
) -> (r: Option<Vec<(&'static str, Field)>>)
    ensures
        r is Some <==> state.btc5m_market is Some,
        r is Some ==> field_views(r->0@) == signal_record(
            *state,
            state.btc5m_market->0,
            *ts,
            session.idle_mins(now_ms),
        ),
{
    let market: &Btc5mMarket = match &state.btc5m_market {
        Some(m) => m,
        None => return None,
    };
    let btc = &state.btc;
    let latency = &state.latency;
    let mins: u64 = session.mins_since_last_trade_at(now_ms);
    let r: Vec<(&'static str, Field)> = vec![
        ("market_id", Field::Text(market.slug.clone())),
        ("question", Field::Text(market.question.clone())),
        ("poly_yes_pct", Field::Real(market.yes_price)),
        ("poly_no_pct", Field::Real(market.no_price)),
        ("divergence_score", Field::Real(ts.estimate.divergence_score)),
        ("expected_repricing", Field::Real(ts.estimate.expected_repricing)),
        ("edge_pct", Field::Real(ts.edge_score.edge_pct)),
        ("tradeable", Field::Flag(ts.edge_score.tradeable)),
        ("direction", Field::Text(direction_text(Some(ts.edge_score.direction)))),
        ("btc_price", Field::Real(btc.price)),
        ("btc_trend", Field::Text(btc.microtrend.as_str().to_owned())),
        ("velocity_trend", Field::Text(btc.velocity_trend.as_str().to_owned())),
        ("spread", Field::Real(market.spread)),
        ("time_remaining_secs", Field::Signed(market.time_remaining_secs)),
        ("binance_latency_ms", Field::Count(latency.binance_ms)),
        ("polymarket_latency_ms", Field::Count(latency.polymarket_ms)),
        ("clock_offset_ms", Field::Signed(latency.server_time_offset_ms)),
        ("confidence", Field::Real(ts.edge_score.confidence)),
        ("price_velocity", Field::Real(btc.price_velocity)),
        ("volume_delta", Field::Real(btc.volume_delta)),
        ("order_flow_ratio", Field::Real(btc.order_flow_ratio)),
        ("velocity_consistency", Field::Real(btc.velocity_consistency)),
        ("price_acceleration", Field::Real(btc.price_acceleration)),
        ("missing_reason", Field::Missing(ts.missing_reason)),
        ("binance_ping_ms", Field::Count(latency.binance_ping_ms)),
        ("binance_tick_rate", Field::Real(latency.binance_tick_rate)),
        ("polymarket_tick_rate", Field::Real(latency.polymarket_tick_rate)),
        ("binance_last_msg_ms", Field::Count(latency.binance_last_msg_ms)),
        ("polymarket_last_msg_ms", Field::Count(latency.polymarket_last_msg_ms)),
        ("price_rejections", Field::Count(latency.price_rejections)),
        ("fallback_mode", Field::Flag(latency.fallback_mode)),
        ("poly_last_fetched_ms", Field::Count(market.last_fetched_ms)),
        ("threshold_mode", Field::Text(ts.threshold_mode.as_str().to_owned())),
        ("mins_since_last_trade", Field::Count(mins)),
        ("active_min_edge_pct", Field::Real(ts.thresholds.min_edge_pct)),
        ("active_min_confidence", Field::Real(ts.thresholds.min_confidence)),
    ];
    assert(field_views(r@) =~= signal_record(*state, *market, *ts, mins));
    Some(r)
}

/// The record of the paper trading totals.
pub open spec fn stats_record(s: PaperStats) -> Seq<(Seq<char>, FieldView)> {
    seq![
        ("total_pnl"@, FieldView::Real(s.total_pnl)),
        ("win_count"@, FieldView::Count(s.win_count)),
        ("loss_count"@, FieldView::Count(s.loss_count)),
        ("trade_count"@, FieldView::Count(s.trade_count)),
        ("suspicious_count"@, FieldView::Count(s.suspicious_count)),
        ("open_positions"@, FieldView::Count(s.open_positions)),
        ("consecutive_losses"@, FieldView::Count(s.consecutive_losses as u64)),
        ("cooldown_until_ms"@, FieldView::Count(s.cooldown_until_ms)),
        ("avg_win"@, FieldView::Real(s.avg_win)),
        ("avg_loss"@, FieldView::Real(s.avg_loss)),
        ("best_trade"@, FieldView::Real(s.best_trade)),
        ("worst_trade"@, FieldView::Real(s.worst_trade)),
        ("edge_avg"@, FieldView::Real(s.edge_avg)),
        ("avg_hold_secs"@, FieldView::Real(s.avg_hold_secs)),
        ("yes_trades"@, FieldView::Count(s.yes_trades)),
        ("yes_wins"@, FieldView::Count(s.yes_wins)),
        ("no_trades"@, FieldView::Count(s.no_trades)),
        ("no_wins"@, FieldView::Count(s.no_wins)),
    ]
}

/// The fields of the paper trading totals.
pub fn stats_fields(s: &PaperStats) -> (r: Vec<(&'static str, Field)>)
    ensures
        field_views(r@) == stats_record(*s),
{
    let r: Vec<(&'static str, Field)> = vec![
        ("total_pnl", Field::Real(s.total_pnl)),
        ("win_count", Field::Count(s.win_count)),
        ("loss_count", Field::Count(s.loss_count)),
        ("trade_count", Field::Count(s.trade_count)),
        ("suspicious_count", Field::Count(s.suspicious_count)),
        ("open_positions", Field::Count(s.open_positions)),
        ("consecutive_losses", Field::Count(s.consecutive_losses as u64)),
        ("cooldown_until_ms", Field::Count(s.cooldown_until_ms)),
        ("avg_win", Field::Real(s.avg_win)),
        ("avg_loss", Field::Real(s.avg_loss)),
        ("best_trade", Field::Real(s.best_trade)),
        ("worst_trade", Field::Real(s.worst_trade)),
        ("edge_avg", Field::Real(s.edge_avg)),
        ("avg_hold_secs", Field::Real(s.avg_hold_secs)),
        ("yes_trades", Field::Count(s.yes_trades)),
        ("yes_wins", Field::Count(s.yes_wins)),
        ("no_trades", Field::Count(s.no_trades)),
        ("no_wins", Field::Count(s.no_wins)),
    ];
    assert(field_views(r@) =~= stats_record(*s));
    r
}

/// The settings that are written where there are none yet. Shares are in per cent.
pub open spec fn default_settings(config: AppConfig) -> Seq<(Seq<char>, FieldView)> {
    let divergence = config.strategy.divergence;
    let hundred = Double::from_u64(100);
    seq![
        ("polytrade:config:mode"@, FieldView::Text("paper"@)),
        ("polytrade:config:paused"@, FieldView::Text("false"@)),
        ("polytrade:config:size_usd"@, FieldView::Real(config.paper.default_size_usd)),
        (
            "polytrade:config:max_concurrent_positions"@,
            FieldView::Count(config.risk.max_concurrent_positions as u64),
        ),
        ("polytrade:config:max_exposure_usd"@, FieldView::Real(config.risk.max_exposure_usd)),
        (
            "polytrade:config:consecutive_loss_limit"@,
            FieldView::Count(config.risk.consecutive_loss_limit as u64),
        ),
        (
            "polytrade:config:cooldown_after_loss_secs"@,
            FieldView::Count(config.risk.cooldown_after_loss_secs),
        ),
        (
            "polytrade:config:exit_before_final_secs"@,
            FieldView::Signed(divergence.exit_before_final_secs),
        ),
        (
            "polytrade:config:stop_loss_pct"@,
            FieldView::Real(divergence.stop_loss_pct.mul(hundred)),
        ),
        (
            "polytrade:config:profit_target_pct"@,
            FieldView::Real(divergence.profit_target_pct.mul(hundred)),
        ),
        ("polytrade:config:min_edge_pct"@, FieldView::Real(divergence.min_edge_pct.mul(hundred))),
        (
            "polytrade:config:min_trade_interval_secs"@,
            FieldView::Count(config.risk.min_trade_interval_secs),
        ),
    ]
}

/// The settings to write where there are none yet.
pub fn settings_fields(config: &AppConfig) -> (r: Vec<(&'static str, Field)>)
    ensures
        field_views(r@) == default_settings(*config),
{
    let divergence = &config.strategy.divergence;
    let hundred: Double = Double::from_u64(100);
    let r: Vec<(&'static str, Field)> = vec![
        ("polytrade:config:mode", Field::Text("paper".to_owned())),
        ("polytrade:config:paused", Field::Text("false".to_owned())),
        ("polytrade:config:size_usd", Field::Real(config.paper.default_size_usd)),
        (
            "polytrade:config:max_concurrent_positions",
            Field::Count(config.risk.max_concurrent_positions as u64),
        ),
        ("polytrade:config:max_exposure_usd", Field::Real(config.risk.max_exposure_usd)),
        (
            "polytrade:config:consecutive_loss_limit",
            Field::Count(config.risk.consecutive_loss_limit as u64),
        ),
        (
            "polytrade:config:cooldown_after_loss_secs",
            Field::Count(config.risk.cooldown_after_loss_secs),
        ),
        (
            "polytrade:config:exit_before_final_secs",
            Field::Signed(divergence.exit_before_final_secs),
        ),
        ("polytrade:config:stop_loss_pct", Field::Real(divergence.stop_loss_pct.mul(hundred))),
        (
            "polytrade:config:profit_target_pct",
            Field::Real(divergence.profit_target_pct.mul(hundred)),
        ),
        ("polytrade:config:min_edge_pct", Field::Real(divergence.min_edge_pct.mul(hundred))),
        (
            "polytrade:config:min_trade_interval_secs",
            Field::Count(config.risk.min_trade_interval_secs),
        ),
    ];
    assert(field_views(r@) =~= default_settings(*config));
    r
}

/// A closed trade goes to the list of trades, or to that of suspicious ones where it is one
/// of them, and never to both.
pub proof fn law_suspicious_trades_are_kept_apart(
    trade: ClosedTrade,
    texts: EventTexts,
    now_ms: u64,
    value: Seq<char>,
)
    requires
        texts.json is Some,
    ensures
        ({
            let commands = planned(MarketEvent::PaperTradeClose(trade), texts, now_ms);
            let into = |key: Seq<char>|
                commands.contains(CommandView::PushTrimmed { key, value, max_len: 1000 });
            &&& into("polytrade:paper:suspicious_trades"@) <==> trade.is_suspicious && value
                == texts.json->0@
            &&& into("polytrade:paper:trades"@) <==> !trade.is_suspicious && value
                == texts.json->0@
        }),
{
    reveal_strlit("polytrade:paper:suspicious_trades");
    reveal_strlit("polytrade:paper:trades");
    assert("polytrade:paper:suspicious_trades"@.len() != "polytrade:paper:trades"@.len());
    let commands = planned(MarketEvent::PaperTradeClose(trade), texts, now_ms);
    let key = if trade.is_suspicious {
        "polytrade:paper:suspicious_trades"@
    } else {
        "polytrade:paper:trades"@
    };
    assert(commands[0] == (CommandView::PushTrimmed {
        key,
        value: texts.json->0@,
        max_len: 1000,
    }));
    assert(commands[1] is Publish);
}

/// The prices of a market are stored under the names of their sides, its phase and time under
/// their own, and the market itself under both of its names.
pub proof fn law_market_is_stored_by_its_parts(
    m: Btc5mMarket,
    json: Seq<char>,
    yes_price: Seq<char>,
    no_price: Seq<char>,
)
    ensures
        ({
            let commands = market_commands(m, json, yes_price, no_price);
            let stored = |key: Seq<char>, value: Seq<char>|
                commands.contains(CommandView::Store { key, value });
            let shown = |name: Seq<char>|
                commands.contains(
                    CommandView::SetEx {
                        key: "polytrade:state:market:"@ + name,
                        secs: 60,
                        value: json,
                    },
                );
            &&& stored("polytrade:btc5m:yes_price"@, yes_price)
            &&& stored("polytrade:btc5m:no_price"@, no_price)
            &&& stored("polytrade:btc5m:phase"@, phase_word(m.phase))
            &&& stored(
                "polytrade:btc5m:secs_remaining"@,
                signed_decimal(m.time_remaining_secs as int),
            )
            &&& stored("polytrade:btc5m:current"@, json)
            &&& shown(m.slug@)
            &&& shown(m.condition_id@)
            &&& commands.last() == (CommandView::Publish {
                channel: "polytrade:market:"@ + m.condition_id@,
                payload: json,
            })
        }),
{
    let commands = market_commands(m, json, yes_price, no_price);
    let n = commands.len();
    assert(commands[0] == (CommandView::Store { key: "polytrade:btc5m:current"@, value: json }));
    assert(commands[1] == (CommandView::Store {
        key: "polytrade:btc5m:yes_price"@,
        value: yes_price,
    }));
    assert(commands[2] == (CommandView::Store {
        key: "polytrade:btc5m:no_price"@,
        value: no_price,
    }));
    assert(commands[3] == (CommandView::Store {
        key: "polytrade:btc5m:phase"@,
        value: phase_word(m.phase),
    }));
    assert(commands[4] == (CommandView::Store {
        key: "polytrade:btc5m:secs_remaining"@,
        value: signed_decimal(m.time_remaining_secs as int),
    }));
    assert(commands[n - 3] == (CommandView::SetEx {
        key: "polytrade:state:market:"@ + m.slug@,
        secs: 60,
        value: json,
    }));
    assert(commands[n - 2] == (CommandView::SetEx {
        key: "polytrade:state:market:"@ + m.condition_id@,
        secs: 60,
        value: json,
    }));
}

/// The keys of other markets go exactly before a market that is still to trade, and before
/// its own are set.
pub proof fn law_old_markets_go_first(
    m: Btc5mMarket,
    json: Seq<char>,
    yes_price: Seq<char>,
    no_price: Seq<char>,
    i: int,
    j: int,
)
    requires
        0 <= i < market_commands(m, json, yes_price, no_price).len(),
        0 <= j < market_commands(m, json, yes_price, no_price).len(),
    ensures
        ({
            let commands = market_commands(m, json, yes_price, no_price);
            &&& commands[i] is DeleteMatching ==> m.phase == MarketPhase::Active || m.phase
                == MarketPhase::PreOpen
            &&& m.phase == MarketPhase::Active || m.phase == MarketPhase::PreOpen
                ==> commands[5] is DeleteMatching
            &&& commands[i] is DeleteMatching && commands[j] is SetEx ==> i < j
        }),
{
}

/// An event that could not be rendered and holds more than numbers writes nothing.
pub proof fn law_unrendered_events_are_not_written(
    event: MarketEvent,
    texts: EventTexts,
    now_ms: u64,
)
    requires
        texts.json is None,
        !(event is LatencyAlert),
        !(event is PriceRejected),
        !(event is FeedCriticalAlert),
    ensures
        planned(event, texts, now_ms).len() == 0,
{
}

/// The latency of a feed is written under the name of that feed.
pub proof fn law_latency_is_written_by_feed(
    source: FeedSource,
    latency_ms: u64,
    texts: EventTexts,
    now_ms: u64,
)
    ensures
        ({
            let commands = planned(
                MarketEvent::LatencyAlert { source, latency_ms },
                texts,
                now_ms,
            );
            let name = if source == FeedSource::Binance {
                "binance"@
            } else {
                "polymarket"@
            };
            &&& commands.len() == 1
            &&& commands[0] == (CommandView::HSet {
                key: "polytrade:latency:"@ + name,
                field: "latency_ms"@,
                count: latency_ms,
            })
        }),
{
}

/// What is broadcast of a market says the same as the record of its signal: every field but
/// the time of the broadcast stands in that record with the same value.
pub proof fn law_broadcast_agrees_with_the_signal(
    state: MarketState,
    ts: TickSnapshot,
    mins_since_last_trade: u64,
    now_ms: u64,
    i: int,
)
    requires
        state.btc5m_market is Some,
        0 <= i < 21,
    ensures
        ({
            let s = broadcast_of(state, ts, mins_since_last_trade);
            let sent = snapshot_record(
                s,
                s.btc_trend.word(),
                s.velocity_trend.word(),
                now_ms,
            );
            signal_record(
                state,
                state.btc5m_market->0,
                ts,
                mins_since_last_trade,
            ).contains(sent[i])
        }),
{
    let s = broadcast_of(state, ts, mins_since_last_trade);
    let sent = snapshot_record(s, s.btc_trend.word(), s.velocity_trend.word(), now_ms);
    let kept = signal_record(state, state.btc5m_market->0, ts, mins_since_last_trade);
    let place: int = if i < 12 {
        i
    } else if i == 12 {
        13
    } else if i < 16 {
        i + 4
    } else if i == 16 {
        23
    } else {
        i + 15
    };
    assert(kept[place] == sent[i]);
}

/// The record of a market's signal names the prices of its sides and what it scored.
pub proof fn law_signal_names_its_sides(
    state: MarketState,
    market: Btc5mMarket,
    ts: TickSnapshot,
    mins_since_last_trade: u64,
)
    ensures
        ({
            let record = signal_record(state, market, ts, mins_since_last_trade);
            let names = |name: Seq<char>, x: Double| record.contains((name, FieldView::Real(x)));
            &&& names("poly_yes_pct"@, market.yes_price)
            &&& names("poly_no_pct"@, market.no_price)
            &&& names("edge_pct"@, ts.edge_score.edge_pct)
            &&& names("confidence"@, ts.edge_score.confidence)
            &&& names("active_min_edge_pct"@, ts.thresholds.min_edge_pct)
            &&& names("active_min_confidence"@, ts.thresholds.min_confidence)
            &&& record.contains(
                (
                    "direction"@,
                    FieldView::Text(
                        if ts.edge_score.direction == Direction::Yes {
                            "YES"@
                        } else {
                            "NO"@
                        },
                    ),
                ),
            )
        }),
{
    let record = signal_record(state, market, ts, mins_since_last_trade);
    assert(record[2] == ("poly_yes_pct"@, FieldView::Real(market.yes_price)));
    assert(record[3] == ("poly_no_pct"@, FieldView::Real(market.no_price)));
    assert(record[6] == ("edge_pct"@, FieldView::Real(ts.edge_score.edge_pct)));
    assert(record[8] == ("direction"@, FieldView::Text(
        direction_word(Some(ts.edge_score.direction)),
    )));
    assert(record[17] == ("confidence"@, FieldView::Real(ts.edge_score.confidence)));
    assert(record[34] == ("active_min_edge_pct"@, FieldView::Real(ts.thresholds.min_edge_pct)));
    assert(record[35] == (
        "active_min_confidence"@,
        FieldView::Real(ts.thresholds.min_confidence),
    ));
}

/// The record of the totals names each of them, by side and by result.
pub proof fn law_totals_are_named(s: PaperStats)
    ensures
        ({
            let record = stats_record(s);
            let counts = |name: Seq<char>, n: u64| record.contains((name, FieldView::Count(n)));
            let sums = |name: Seq<char>, x: Double| record.contains((name, FieldView::Real(x)));
            &&& counts("win_count"@, s.win_count) && counts("loss_count"@, s.loss_count)
            &&& counts("yes_trades"@, s.yes_trades) && counts("no_trades"@, s.no_trades)
            &&& counts("yes_wins"@, s.yes_wins) && counts("no_wins"@, s.no_wins)
            &&& counts("trade_count"@, s.trade_count)
            &&& counts("suspicious_count"@, s.suspicious_count)
            &&& counts("open_positions"@, s.open_positions)
            &&& counts("cooldown_until_ms"@, s.cooldown_until_ms)
            &&& sums("total_pnl"@, s.total_pnl) && sums("edge_avg"@, s.edge_avg)
            &&& sums("avg_win"@, s.avg_win) && sums("avg_loss"@, s.avg_loss)
            &&& sums("best_trade"@, s.best_trade) && sums("worst_trade"@, s.worst_trade)
            &&& sums("avg_hold_secs"@, s.avg_hold_secs)
        }),
{
    let record = stats_record(s);
    assert(record[0] == ("total_pnl"@, FieldView::Real(s.total_pnl)));
    assert(record[1] == ("win_count"@, FieldView::Count(s.win_count)));
    assert(record[2] == ("loss_count"@, FieldView::Count(s.loss_count)));
    assert(record[3] == ("trade_count"@, FieldView::Count(s.trade_count)));
    assert(record[4] == ("suspicious_count"@, FieldView::Count(s.suspicious_count)));
    assert(record[5] == ("open_positions"@, FieldView::Count(s.open_positions)));
    assert(record[7] == ("cooldown_until_ms"@, FieldView::Count(s.cooldown_until_ms)));
    assert(record[8] == ("avg_win"@, FieldView::Real(s.avg_win)));
    assert(record[9] == ("avg_loss"@, FieldView::Real(s.avg_loss)));
    assert(record[10] == ("best_trade"@, FieldView::Real(s.best_trade)));
    assert(record[11] == ("worst_trade"@, FieldView::Real(s.worst_trade)));
    assert(record[12] == ("edge_avg"@, FieldView::Real(s.edge_avg)));
    assert(record[13] == ("avg_hold_secs"@, FieldView::Real(s.avg_hold_secs)));
    assert(record[14] == ("yes_trades"@, FieldView::Count(s.yes_trades)));
    assert(record[15] == ("yes_wins"@, FieldView::Count(s.yes_wins)));
    assert(record[16] == ("no_trades"@, FieldView::Count(s.no_trades)));
    assert(record[17] == ("no_wins"@, FieldView::Count(s.no_wins)));
}

/// The settings that are written first are the ones of the file under their own names, and
/// shares among them are in per cent: one is a hundred.
pub proof fn law_first_settings_are_those_of_the_file(config: AppConfig)
    ensures
        ({
            let settings = default_settings(config);
            let divergence = config.strategy.divergence;
            let share = |name: Seq<char>, x: Double|
                x == Double::one() ==> settings.contains(
                    (name, FieldView::Real(Double::from_u64(100))),
                );
            &&& share("polytrade:config:stop_loss_pct"@, divergence.stop_loss_pct)
            &&& share("polytrade:config:profit_target_pct"@, divergence.profit_target_pct)
            &&& share("polytrade:config:min_edge_pct"@, divergence.min_edge_pct)
            &&& settings.contains(
                (
                    "polytrade:config:size_usd"@,
                    FieldView::Real(config.paper.default_size_usd),
                ),
            )
            &&& settings.contains(
                (
                    "polytrade:config:max_exposure_usd"@,
                    FieldView::Real(config.risk.max_exposure_usd),
                ),
            )
            &&& settings.contains(
                (
                    "polytrade:config:consecutive_loss_limit"@,
                    FieldView::Count(config.risk.consecutive_loss_limit as u64),
                ),
            )
            &&& settings.contains(
                (
                    "polytrade:config:cooldown_after_loss_secs"@,
                    FieldView::Count(config.risk.cooldown_after_loss_secs),
                ),
            )
        }),
{
    let settings = default_settings(config);
    let divergence = config.strategy.divergence;
    let hundred = Double::from_u64(100);
    law_integer_is_a_number(100);
    law_product_with_one(hundred);
    assert(settings[2] == (
        "polytrade:config:size_usd"@,
        FieldView::Real(config.paper.default_size_usd),
    ));
    assert(settings[4] == (
        "polytrade:config:max_exposure_usd"@,
        FieldView::Real(config.risk.max_exposure_usd),
    ));
    assert(settings[5] == (
        "polytrade:config:consecutive_loss_limit"@,
        FieldView::Count(config.risk.consecutive_loss_limit as u64),
    ));
    assert(settings[6] == (
        "polytrade:config:cooldown_after_loss_secs"@,
        FieldView::Count(config.risk.cooldown_after_loss_secs),
    ));
    assert(settings[8] == (
        "polytrade:config:stop_loss_pct"@,
        FieldView::Real(divergence.stop_loss_pct.mul(hundred)),
    ));
    assert(settings[9] == (
        "polytrade:config:profit_target_pct"@,
        FieldView::Real(divergence.profit_target_pct.mul(hundred)),
    ));
    assert(settings[10] == (
        "polytrade:config:min_edge_pct"@,
        FieldView::Real(divergence.min_edge_pct.mul(hundred)),
    ));
}

} // verus!
