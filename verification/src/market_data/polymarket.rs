//! The wider feed of crypto markets.
use vstd::prelude::*;

use crate::config::FeedsConfig;
use crate::events::bus::MarketEvent;
use crate::json::{json_document, json_quoted, parse_json, quote, trees, Json, JsonView};
use crate::market_data::normalizer::{
    gamma_market_of, gamma_market_to_state_at, is_control, normalize_gamma_market_at,
    normalize_polymarket_ws_msg, update_of, GammaMarket, GammaView, NotJson, WsMarketUpdate,
    WsUpdateView,
};
use crate::market_data::price_validator::elapsed_ms;
use crate::market_data::reconnect::{doubled, next_backoff, Pause};
use crate::market_data::state::{LatencyState, MarketState, PolymarketState};
use crate::numeric::Double;
use crate::numeric::rounding::magnitude;
use crate::text::{holds, lowercase, occurs, same_text, to_lowercase};
use crate::time::clock_reading;

verus! {

/// The longest delay between two connections, in seconds.
pub const MAX_BACKOFF_SECS: u64 = 30;

/// How long the feed waits where no market is in the time window, in seconds.
pub const NO_MARKETS_DELAY_SECS: u64 = 60;

/// How a cycle of the feed ended.
#[derive(Clone, Copy, Debug, PartialEq, Eq, Structural)]
pub enum CycleEnd {
    /// The markets could not be fetched.
    FetchFailed,
    NoMarkets,
    /// The socket ended without an error.
    Closed,
    /// The socket failed.
    Failed,
}

/// The wait after a cycle of the feed.
pub open spec fn pause_after(end: CycleEnd, backoff_secs: u64) -> Pause {
    match end {
        CycleEnd::FetchFailed => Pause {
            delay_secs: backoff_secs,
            backoff_secs: doubled(backoff_secs, MAX_BACKOFF_SECS),
            announced: false,
        },
        CycleEnd::NoMarkets => Pause {
            delay_secs: NO_MARKETS_DELAY_SECS,
            backoff_secs,
            announced: false,
        },
        CycleEnd::Closed => Pause { delay_secs: 0, backoff_secs: 1, announced: false },
        CycleEnd::Failed => Pause {
            delay_secs: backoff_secs,
            backoff_secs: doubled(backoff_secs, MAX_BACKOFF_SECS),
            announced: true,
        },
    }
}

/// What follows a cycle of the feed: failures double the delay, and one of the socket is
/// announced; a socket that ended well is opened again at once, from the shortest delay.
pub fn after_cycle(end: CycleEnd, backoff_secs: u64) -> (r: Pause)
    requires
        end is FetchFailed || end is Failed ==> backoff_secs * 2 <= u64::MAX,
    ensures
        r == pause_after(end, backoff_secs),
{
    match end {
        CycleEnd::FetchFailed => Pause {
            delay_secs: backoff_secs,
            backoff_secs: next_backoff(backoff_secs, MAX_BACKOFF_SECS),
            announced: false,
        },
        CycleEnd::NoMarkets => Pause {
            delay_secs: NO_MARKETS_DELAY_SECS,
            backoff_secs,
            announced: false,
        },
        CycleEnd::Closed => Pause { delay_secs: 0, backoff_secs: 1, announced: false },
        CycleEnd::Failed => Pause {
            delay_secs: backoff_secs,
            backoff_secs: next_backoff(backoff_secs, MAX_BACKOFF_SECS),
            announced: true,
        },
    }
}

/// Seconds between two refreshes of the markets.
pub const REST_REFRESH_INTERVAL_SECS: u64 = 30;

/// The address of the list of markets.
pub fn markets_url(polymarket_rest: &str) -> (r: String)
    ensures
        r@ == polymarket_rest@ + "/markets?active=true&tag=crypto"@,
{
    polymarket_rest.to_owned().concat("/markets?active=true&tag=crypto")
}

/// The markets of a reply: an array, or one under `data`.
pub open spec fn listed_markets(document: JsonView) -> Seq<JsonView> {
    match document {
        JsonView::Array { items, .. } => items,
        _ => match document.items_field("data"@) {
            Some(items) => items,
            None => Seq::empty(),
        },
    }
}

/// A market whose time is within the limits and whose title holds the keyword or the
/// word bitcoin, in either case; without a keyword every title will do.
pub open spec fn is_wanted(m: GammaView, min_secs: i64, max_secs: i64, keyword: Seq<char>) -> bool {
    &&& min_secs <= m.time_remaining_secs <= max_secs
    &&& keyword.len() == 0 || occurs(lowercase(m.question), keyword) || occurs(
        lowercase(m.question),
        "bitcoin"@,
    )
}

/// The markets of a list that are well formed and wanted, in order.
pub open spec fn wanted_markets(
    items: Seq<JsonView>,
    min_secs: i64,
    max_secs: i64,
    keyword: Seq<char>,
    reading: Option<(u64, u32)>,
) -> Seq<GammaView>
    decreases items.len(),
{
    if items.len() == 0 {
        Seq::empty()
    } else {
        let before = wanted_markets(items.drop_last(), min_secs, max_secs, keyword, reading);
        match gamma_market_of(items.last(), reading) {
            Some(m) => if is_wanted(m, min_secs, max_secs, keyword) {
                before.push(m)
            } else {
                before
            },
            None => before,
        }
    }
}

/// The contents of each market.
pub open spec fn market_views(markets: Seq<GammaMarket>) -> Seq<GammaView> {
    markets.map_values(|m: GammaMarket| m@)
}

fn wants(m: &GammaMarket, min_secs: i64, max_secs: i64, keyword: &str) -> (r: bool)
    ensures
        r == is_wanted(m@, min_secs, max_secs, keyword@),
{
    if m.time_remaining_secs < min_secs || m.time_remaining_secs > max_secs {
        return false;
    }
    if keyword.is_empty() {
        return true;
    }
    let question: String = to_lowercase(m.question.as_str());
    holds(question.as_str(), keyword) || holds(question.as_str(), "bitcoin")
}

fn pick_wanted(
    items: &Vec<Json>,
    min_secs: i64,
    max_secs: i64,
    keyword: &str,
    reading: Option<(u64, u32)>,
) -> (r: Vec<GammaMarket>)
    ensures
        market_views(r@) == wanted_markets(trees(items@), min_secs, max_secs, keyword@, reading),
{
    let ghost all = trees(items@);
    let mut out: Vec<GammaMarket> = Vec::new();
    let mut i: usize = 0;
    assert(market_views(out@) =~= Seq::empty());
    while i < items.len()
        invariant
            i <= items@.len(),
            all == trees(items@),
            market_views(out@) == wanted_markets(
                all.take(i as int),
                min_secs,
                max_secs,
                keyword@,
                reading,
            ),
        decreases items@.len() - i,
    {
        assert(all.take(i + 1).drop_last() =~= all.take(i as int));
        assert(all.take(i + 1).last() == items@[i as int]@);
        let ghost before = out@;
        match normalize_gamma_market_at(&items[i], reading) {
            Some(m) => {
                if wants(&m, min_secs, max_secs, keyword) {
                    out.push(m);
                    assert(market_views(out@) =~= market_views(before).push(m@));
                }
            },
            None => {},
        }
        i = i + 1;
    }
    assert(all.take(i as int) =~= all);
    out
}

/// The wanted markets of a parsed reply, at a reading of the clock.
pub fn filtered_markets(document: &Json, feeds: &FeedsConfig, reading: Option<(u64, u32)>) -> (r:
    Vec<GammaMarket>)
    ensures
        market_views(r@) == wanted_markets(
            listed_markets(document@),
            feeds.market_filter_min_secs,
            feeds.market_filter_max_secs,
            lowercase(feeds.market_keyword_filter@),
            reading,
        ),
{
    let keyword: String = to_lowercase(feeds.market_keyword_filter.as_str());
    let min_secs: i64 = feeds.market_filter_min_secs;
    let max_secs: i64 = feeds.market_filter_max_secs;
    proof {
        document.lemma_parts();
    }
    match document {
        Json::Array { items, .. } => pick_wanted(
            items,
            min_secs,
            max_secs,
            keyword.as_str(),
            reading,
        ),
        _ => match document.get_items("data") {
            Some(items) => pick_wanted(items, min_secs, max_secs, keyword.as_str(), reading),
            None => {
                let none: Vec<GammaMarket> = Vec::new();
                assert(market_views(none@) =~= Seq::empty());
                none
            },
        },
    }
}

/// Reads the wanted markets of a reply; nothing where it is not JSON.
pub fn read_markets(body: &str, feeds: &FeedsConfig) -> (r: Option<Vec<GammaMarket>>)
    ensures
        r is Some <==> json_document(body@) is Some,
        r is Some ==> exists|reading: Option<(u64, u32)>|
            market_views(r->0@) == #[trigger] wanted_markets(
                listed_markets(json_document(body@)->0),
                feeds.market_filter_min_secs,
                feeds.market_filter_max_secs,
                lowercase(feeds.market_keyword_filter@),
                reading,
            ),
{
    match parse_json(body) {
        Some(document) => {
            assert(document@ == json_document(body@)->0);
            let reading: Option<(u64, u32)> = clock_reading();
            Some(filtered_markets(&document, feeds, reading))
        },
        None => None,
    }
}

/// The place of a market; the number of markets where it is not there.
pub open spec fn market_index(markets: Seq<PolymarketState>, market_id: Seq<char>) -> nat
    decreases markets.len(),
{
    if markets.len() == 0 || markets[0].market_id@ == market_id {
        0
    } else {
        1 + market_index(markets.drop_first(), market_id)
    }
}

/// No identifier twice.
pub open spec fn identifiers_differ(markets: Seq<PolymarketState>) -> bool {
    forall|i: int, j: int|
        0 <= i < j < markets.len() ==> (#[trigger] markets[i]).market_id@ != (
        #[trigger] markets[j]).market_id@
}

/// A market takes the place of the one with its identifier, or comes last.
pub open spec fn put(markets: Seq<PolymarketState>, m: PolymarketState) -> Seq<PolymarketState> {
    let i = market_index(markets, m.market_id@);
    if i < markets.len() {
        markets.update(i as int, m)
    } else {
        markets.push(m)
    }
}

/// The feed's record of a market.
pub open spec fn record_of(m: GammaMarket, now_ms: u64) -> PolymarketState {
    PolymarketState {
        market_id: m.market_id,
        question: m.question,
        yes_price: m.yes_price,
        no_price: m.no_price,
        spread: m.spread,
        volume_24h: m.volume_24h,
        time_remaining_secs: m.time_remaining_secs,
        last_updated_ms: now_ms,
    }
}

/// The markets after others were put among them, one after the other.
pub open spec fn put_all(
    markets: Seq<PolymarketState>,
    fresh: Seq<GammaMarket>,
    now_ms: u64,
) -> Seq<PolymarketState>
    decreases fresh.len(),
{
    if fresh.len() == 0 {
        markets
    } else {
        put(put_all(markets, fresh.drop_last(), now_ms), record_of(fresh.last(), now_ms))
    }
}

/// An update of each market.
pub open spec fn updates_of(fresh: Seq<GammaMarket>, now_ms: u64) -> Seq<MarketEvent> {
    fresh.map_values(|m: GammaMarket| MarketEvent::PolymarketStateUpdate(record_of(m, now_ms)))
}

fn index_of(markets: &Vec<PolymarketState>, market_id: &str) -> (r: usize)
    ensures
        r == market_index(markets@, market_id@),
        r <= markets@.len(),
{
    let mut i: usize = 0;
    assert(markets@.skip(0) =~= markets@);
    while i < markets.len()
        invariant
            i <= markets@.len(),
            market_index(markets@, market_id@) == i + market_index(
                markets@.skip(i as int),
                market_id@,
            ),
        decreases markets@.len() - i,
    {
        if same_text(markets[i].market_id.as_str(), market_id) {
            return i;
        }
        assert(markets@.skip(i as int).drop_first() =~= markets@.skip(i + 1));
        i = i + 1;
    }
    i
}

/// Puts fresh markets into the state, and tells of each.
pub fn seed_state(state: &mut MarketState, fresh: &Vec<GammaMarket>, now_ms: u64) -> (events: Vec<
    MarketEvent,
>)
    ensures
        final(state).polymarkets@ == put_all(old(state).polymarkets@, fresh@, now_ms),
        *final(state) == (MarketState {
            polymarkets: final(state).polymarkets,
            last_updated_ms: now_ms,
            ..*old(state)
        }),
        events@ == updates_of(fresh@, now_ms),
{
    let ghost start = state.polymarkets@;
    let mut events: Vec<MarketEvent> = Vec::new();
    let mut i: usize = 0;
    assert(fresh@.take(0) =~= Seq::empty());
    while i < fresh.len()
        invariant
            i <= fresh@.len(),
            state.polymarkets@ == put_all(start, fresh@.take(i as int), now_ms),
            *state == (MarketState { polymarkets: state.polymarkets, ..*old(state) }),
            events@.len() == i,
            forall|j: int|
                0 <= j < i ==> #[trigger] events@[j] == MarketEvent::PolymarketStateUpdate(
                    record_of(fresh@[j], now_ms),
                ),
        decreases fresh@.len() - i,
    {
        assert(fresh@.take(i + 1).drop_last() =~= fresh@.take(i as int));
        let record: PolymarketState = gamma_market_to_state_at(&fresh[i], now_ms);
        events.push(MarketEvent::PolymarketStateUpdate(record.clone()));
        let k: usize = index_of(&state.polymarkets, record.market_id.as_str());
        if k < state.polymarkets.len() {
            state.polymarkets.set(k, record);
        } else {
            state.polymarkets.push(record);
        }
        i = i + 1;
    }
    assert(fresh@.take(i as int) =~= fresh@);
    assert(events@ =~= updates_of(fresh@, now_ms));
    state.last_updated_ms = now_ms;
    events
}

/// A market is among fresh ones.
pub open spec fn is_fresh(fresh: Seq<GammaMarket>, market_id: Seq<char>) -> bool {
    exists|i: int| 0 <= i < fresh.len() && (#[trigger] fresh[i]).market_id@ == market_id
}

fn has_fresh(fresh: &Vec<GammaMarket>, market_id: &str) -> (r: bool)
    ensures
        r == is_fresh(fresh@, market_id@),
{
    let mut i: usize = 0;
    while i < fresh.len()
        invariant
            i <= fresh@.len(),
            forall|j: int| 0 <= j < i ==> (#[trigger] fresh@[j]).market_id@ != market_id@,
        decreases fresh@.len() - i,
    {
        if same_text(fresh[i].market_id.as_str(), market_id) {
            assert(fresh@[i as int].market_id@ == market_id@);
            return true;
        }
        i = i + 1;
    }
    false
}

/// The markets that stay: those among the fresh ones, and those with time left.
pub open spec fn unexpired(
    markets: Seq<PolymarketState>,
    fresh: Seq<GammaMarket>,
    min_secs: i64,
) -> Seq<PolymarketState> {
    markets.filter(
        |m: PolymarketState| is_fresh(fresh, m.market_id@) || m.time_remaining_secs >= min_secs,
    )
}

fn evict(markets: &Vec<PolymarketState>, fresh: &Vec<GammaMarket>, min_secs: i64) -> (r: Vec<
    PolymarketState,
>)
    ensures
        r@ == unexpired(markets@, fresh@, min_secs),
{
    let ghost stays = |m: PolymarketState|
        is_fresh(fresh@, m.market_id@) || m.time_remaining_secs >= min_secs;
    let mut out: Vec<PolymarketState> = Vec::new();
    let mut i: usize = 0;
    proof {
        reveal(Seq::filter);
    }
    while i < markets.len()
        invariant
            i <= markets@.len(),
            stays == (|m: PolymarketState|
                is_fresh(fresh@, m.market_id@) || m.time_remaining_secs >= min_secs),
            out@ == markets@.take(i as int).filter(stays),
        decreases markets@.len() - i,
    {
        proof {
            reveal(Seq::filter);
            assert(markets@.take(i + 1).drop_last() =~= markets@.take(i as int));
            assert(markets@.take(i + 1).last() == markets@[i as int]);
        }
        if has_fresh(fresh, markets[i].market_id.as_str()) || markets[i].time_remaining_secs
            >= min_secs {
            out.push(markets[i].clone());
        }
        i = i + 1;
    }
    assert(markets@.take(i as int) =~= markets@);
    out
}

/// Takes the markets that have closed out of the state and puts the fresh ones in.
pub fn refresh_state_from_rest(
    state: &mut MarketState,
    fresh: &Vec<GammaMarket>,
    min_secs: i64,
    now_ms: u64,
) -> (events: Vec<MarketEvent>)
    ensures
        final(state).polymarkets@ == put_all(
            unexpired(old(state).polymarkets@, fresh@, min_secs),
            fresh@,
            now_ms,
        ),
        *final(state) == (MarketState {
            polymarkets: final(state).polymarkets,
            last_updated_ms: now_ms,
            ..*old(state)
        }),
        events@ == updates_of(fresh@, now_ms),
{
    state.polymarkets = evict(&state.polymarkets, fresh, min_secs);
    seed_state(state, fresh, now_ms)
}

/// Where the messages of a token go.
#[derive(Debug)]
pub struct TokenRoute {
    pub token_id: String,
    pub market_id: String,
    pub is_yes: bool,
}

/// The last route of a token.
pub open spec fn route_of(routes: Seq<TokenRoute>, token_id: Seq<char>) -> Option<TokenRoute>
    decreases routes.len(),
{
    if routes.len() == 0 {
        None
    } else if routes.last().token_id@ == token_id {
        Some(routes.last())
    } else {
        route_of(routes.drop_last(), token_id)
    }
}

/// The routes of a market's tokens.
pub open spec fn routes_of_market(m: GammaMarket) -> Seq<TokenRoute> {
    let yes = TokenRoute { token_id: m.yes_token_id, market_id: m.market_id, is_yes: true };
    let no = TokenRoute { token_id: m.no_token_id, market_id: m.market_id, is_yes: false };
    (if m.yes_token_id@.len() > 0 {
        seq![yes]
    } else {
        Seq::empty()
    }) + (if m.no_token_id@.len() > 0 {
        seq![no]
    } else {
        Seq::empty()
    })
}

/// The routes of the tokens of all markets, in order.
pub open spec fn routes_of(markets: Seq<GammaMarket>) -> Seq<TokenRoute>
    decreases markets.len(),
{
    if markets.len() == 0 {
        Seq::empty()
    } else {
        routes_of(markets.drop_last()) + routes_of_market(markets.last())
    }
}

/// Makes the routes of the tokens of markets.
pub fn build_routes(markets: &Vec<GammaMarket>) -> (r: Vec<TokenRoute>)
    ensures
        r@ == routes_of(markets@),
{
    let mut routes: Vec<TokenRoute> = Vec::new();
    let mut i: usize = 0;
    while i < markets.len()
        invariant
            i <= markets@.len(),
            routes@ == routes_of(markets@.take(i as int)),
        decreases markets@.len() - i,
    {
        let m: &GammaMarket = &markets[i];
        let ghost before = routes@;
        assert(markets@.take(i + 1).drop_last() =~= markets@.take(i as int));
        if !m.yes_token_id.as_str().is_empty() {
            routes.push(
                TokenRoute {
                    token_id: m.yes_token_id.clone(),
                    market_id: m.market_id.clone(),
                    is_yes: true,
                },
            );
        }
        if !m.no_token_id.as_str().is_empty() {
            routes.push(
                TokenRoute {
                    token_id: m.no_token_id.clone(),
                    market_id: m.market_id.clone(),
                    is_yes: false,
                },
            );
        }
        assert(routes@ =~= before + routes_of_market(*m));
        i = i + 1;
    }
    assert(markets@.take(i as int) =~= markets@);
    routes
}

fn find_route<'a>(routes: &'a Vec<TokenRoute>, token_id: &str) -> (r: Option<&'a TokenRoute>)
    ensures
        r is Some <==> route_of(routes@, token_id@) is Some,
        r is Some ==> *r->0 == route_of(routes@, token_id@)->0,
{
    let mut i: usize = routes.len();
    assert(routes@.take(i as int) =~= routes@);
    while i > 0
        invariant
            i <= routes@.len(),
            route_of(routes@, token_id@) == route_of(routes@.take(i as int), token_id@),
        decreases i,
    {
        assert(routes@.take(i as int).last() == routes@[i - 1]);
        assert(routes@.take(i as int).drop_last() =~= routes@.take(i - 1));
        if same_text(routes[i - 1].token_id.as_str(), token_id) {
            return Some(&routes[i - 1]);
        }
        i = i - 1;
    }
    None
}

/// The quoted tokens of routes, with commas between them.
pub open spec fn token_list(routes: Seq<TokenRoute>) -> Seq<char>
    decreases routes.len(),
{
    if routes.len() == 0 {
        ""@
    } else if routes.len() == 1 {
        json_quoted(routes[0].token_id@)
    } else {
        token_list(routes.drop_last()) + ","@ + json_quoted(routes.last().token_id@)
    }
}

/// The request for the updates of all tokens; nothing where there are none.
pub fn assets_subscription(routes: &Vec<TokenRoute>) -> (r: Option<String>)
    ensures
        r is Some <==> routes@.len() > 0,
        r is Some ==> r->0@ == "{\"assets_ids\":["@ + token_list(routes@)
            + "],\"type\":\"subscribe\"}"@,
{
    if routes.len() == 0 {
        return None;
    }
    let mut list: String = quote(routes[0].token_id.as_str());
    let mut i: usize = 1;
    assert(routes@.take(1)[0] == routes@[0]);
    while i < routes.len()
        invariant
            1 <= i <= routes@.len(),
            list@ == token_list(routes@.take(i as int)),
        decreases routes@.len() - i,
    {
        assert(routes@.take(i + 1).drop_last() =~= routes@.take(i as int));
        assert(routes@.take(i + 1).last() == routes@[i as int]);
        list = list.concat(",").concat(quote(routes[i].token_id.as_str()).as_str());
        i = i + 1;
    }
    assert(routes@.take(i as int) =~= routes@);
    Some(
        "{\"assets_ids\":[".to_owned().concat(list.as_str()).concat("],\"type\":\"subscribe\"}"),
    )
}

/// A market with the price of a message for one of its tokens.
pub open spec fn with_price(
    m: PolymarketState,
    is_yes: bool,
    update: WsUpdateView,
    now_ms: u64,
) -> PolymarketState {
    if is_yes {
        PolymarketState {
            yes_price: update.price,
            spread: if update.spread.gt(Double::zero()) {
                update.spread
            } else {
                m.spread
            },
            last_updated_ms: now_ms,
            ..m
        }
    } else {
        PolymarketState { no_price: update.price, last_updated_ms: now_ms, ..m }
    }
}

/// What the price of a message does: the market that its token belongs to gets it, and
/// the time since that market's last change is its latency.
pub open spec fn price_taken(
    routes: Seq<TokenRoute>,
    state: (MarketState, MarketState),
    update: WsUpdateView,
    now_ms: u64,
    event: Option<MarketEvent>,
) -> bool {
    let route = route_of(routes, update.token_id);
    let markets = state.0.polymarkets@;
    let i = market_index(markets, route->0.market_id@);
    if route is None || i >= markets.len() {
        state.1 == state.0 && event is None
    } else {
        let before = markets[i as int];
        let m = with_price(before, route->0.is_yes, update, now_ms);
        &&& event == Some(MarketEvent::PolymarketStateUpdate(m))
        &&& state.1.polymarkets@ == markets.update(i as int, m)
        &&& state.1 == (MarketState {
            polymarkets: state.1.polymarkets,
            latency: if before.last_updated_ms > 0 {
                LatencyState {
                    polymarket_ms: elapsed_ms(now_ms, before.last_updated_ms),
                    ..state.0.latency
                }
            } else {
                state.0.latency
            },
            ..state.0
        })
    }
}

/// Takes in the price of a message.
pub fn handle_ws_update(
    routes: &Vec<TokenRoute>,
    state: &mut MarketState,
    update: &WsMarketUpdate,
    now_ms: u64,
) -> (event: Option<MarketEvent>)
    ensures
        price_taken(routes@, (*old(state), *final(state)), update@, now_ms, event),
{
    let route: &TokenRoute = match find_route(routes, update.token_id.as_str()) {
        Some(route) => route,
        None => return None,
    };
    let i: usize = index_of(&state.polymarkets, route.market_id.as_str());
    if i >= state.polymarkets.len() {
        return None;
    }
    let mut m: PolymarketState = state.polymarkets[i].clone();
    let previous_ms: u64 = m.last_updated_ms;
    if route.is_yes {
        m.yes_price = update.price;
        if update.spread.gt(Double::zero()) {
            m.spread = update.spread;
        }
    } else {
        m.no_price = update.price;
    }
    m.last_updated_ms = now_ms;
    state.polymarkets.set(i, m.clone());
    if previous_ms > 0 {
        state.latency.polymarket_ms = now_ms.saturating_sub(previous_ms);
    }
    Some(MarketEvent::PolymarketStateUpdate(m))
}

/// Takes in a text message; one without a price changes nothing, and one that is not
/// JSON is told.
pub fn handle_ws_message(
    routes: &Vec<TokenRoute>,
    state: &mut MarketState,
    raw: &str,
    now_ms: u64,
) -> (r: Result<Option<MarketEvent>, NotJson>)
    ensures
        ({
            let document = json_document(raw@);
            let silent = is_control(raw@) || document is None || update_of(document->0) is None;
            &&& r is Err <==> !is_control(raw@) && document is None
            &&& silent ==> *final(state) == *old(state) && (r is Ok ==> r->Ok_0 is None)
            &&& !silent ==> price_taken(
                routes@,
                (*old(state), *final(state)),
                update_of(document->0)->0,
                now_ms,
                r->Ok_0,
            )
        }),
{
    match normalize_polymarket_ws_msg(raw) {
        Ok(Some(update)) => Ok(handle_ws_update(routes, state, &update, now_ms)),
        Ok(None) => Ok(None),
        Err(e) => Err(e),
    }
}

proof fn lemma_market_index(markets: Seq<PolymarketState>, market_id: Seq<char>)
    ensures
        ({
            let i = market_index(markets, market_id);
            &&& i <= markets.len()
            &&& i < markets.len() ==> markets[i as int].market_id@ == market_id
            &&& i == markets.len() ==> forall|j: int|
                0 <= j < markets.len() ==> (#[trigger] markets[j]).market_id@ != market_id
        }),
    decreases markets.len(),
{
    if markets.len() > 0 && markets[0].market_id@ != market_id {
        lemma_market_index(markets.drop_first(), market_id);
        let rest = markets.drop_first();
        assert(forall|j: int| 0 < j < markets.len() ==> markets[j] == rest[j - 1]);
    }
}

/// Putting fresh markets among others keeps identifiers apart.
pub proof fn law_put_keeps_identifiers_apart(
    markets: Seq<PolymarketState>,
    fresh: Seq<GammaMarket>,
    now_ms: u64,
)
    requires
        identifiers_differ(markets),
    ensures
        identifiers_differ(put_all(markets, fresh, now_ms)),
    decreases fresh.len(),
{
    if fresh.len() > 0 {
        law_put_keeps_identifiers_apart(markets, fresh.drop_last(), now_ms);
        let before = put_all(markets, fresh.drop_last(), now_ms);
        lemma_market_index(before, record_of(fresh.last(), now_ms).market_id@);
    }
}

/// Every market that is kept of a list is one of it, within the limits of time, and every one
/// of the list that is wanted is kept.
pub proof fn law_wanted_markets_are_kept(
    items: Seq<JsonView>,
    min_secs: i64,
    max_secs: i64,
    keyword: Seq<char>,
    reading: Option<(u64, u32)>,
    i: int,
)
    ensures
        ({
            let kept = wanted_markets(items, min_secs, max_secs, keyword, reading);
            &&& 0 <= i < kept.len() ==> min_secs <= kept[i].time_remaining_secs <= max_secs && (
            keyword.len() == 0 || occurs(lowercase(kept[i].question), keyword) || occurs(
                lowercase(kept[i].question),
                "bitcoin"@,
            )) && exists|j: int|
                0 <= j < items.len() && gamma_market_of(#[trigger] items[j], reading) == Some(
                    kept[i],
                )
            &&& 0 <= i < items.len() ==> match gamma_market_of(items[i], reading) {
                Some(m) => min_secs <= m.time_remaining_secs <= max_secs && keyword.len() == 0
                    ==> kept.contains(m),
                None => true,
            }
        }),
    decreases items.len(),
{
    if items.len() > 0 {
        let rest = items.drop_last();
        let before = wanted_markets(rest, min_secs, max_secs, keyword, reading);
        let kept = wanted_markets(items, min_secs, max_secs, keyword, reading);
        assert(forall|j: int| 0 <= j < rest.len() ==> rest[j] == items[j]);
        assert(items.last() == items[items.len() - 1]);
        law_wanted_markets_are_kept(rest, min_secs, max_secs, keyword, reading, i);
        assert(forall|j: int| 0 <= j < before.len() ==> kept[j] == before[j]);
        if kept.len() > before.len() {
            assert(kept[before.len() as int] == kept.last());
        }
        assert forall|m: GammaView| before.contains(m) implies kept.contains(m) by {
            let j = before.index_of(m);
            assert(kept[j] == m);
        }
        if 0 <= i < before.len() {
            let j = choose|j: int|
                0 <= j < rest.len() && gamma_market_of(#[trigger] rest[j], reading) == Some(
                    before[i],
                );
            assert(gamma_market_of(items[j], reading) == Some(kept[i]));
        }
    }
}

/// The messages of a token go to a market that has it, to the side on which it has it.
pub proof fn law_routes_lead_to_their_market(markets: Seq<GammaMarket>, token_id: Seq<char>)
    ensures
        route_of(routes_of(markets), token_id) matches Some(route) ==> {
            &&& route.token_id@ == token_id
            &&& exists|i: int|
                0 <= i < markets.len() && route.market_id@ == (#[trigger] markets[i]).market_id@
                    && token_id == if route.is_yes {
                    markets[i].yes_token_id@
                } else {
                    markets[i].no_token_id@
                }
        },
{
    lemma_route_is_one(routes_of(markets), token_id);
    if let Some(route) = route_of(routes_of(markets), token_id) {
        lemma_routes_come_from_markets(markets, route);
    }
}

proof fn lemma_route_is_one(routes: Seq<TokenRoute>, token_id: Seq<char>)
    ensures
        route_of(routes, token_id) matches Some(route) ==> routes.contains(route)
            && route.token_id@ == token_id,
    decreases routes.len(),
{
    if routes.len() > 0 {
        let rest = routes.drop_last();
        lemma_route_is_one(rest, token_id);
        assert(routes.last() == routes[routes.len() - 1]);
        if let Some(route) = route_of(rest, token_id) {
            let j = rest.index_of(route);
            assert(routes[j] == rest[j]);
        }
    }
}

proof fn lemma_routes_come_from_markets(markets: Seq<GammaMarket>, route: TokenRoute)
    requires
        routes_of(markets).contains(route),
    ensures
        exists|i: int|
            0 <= i < markets.len() && route.market_id@ == (#[trigger] markets[i]).market_id@
                && route.token_id@ == if route.is_yes {
                markets[i].yes_token_id@
            } else {
                markets[i].no_token_id@
            },
    decreases markets.len(),
{
    if markets.len() > 0 {
        let rest = markets.drop_last();
        let (before, own) = (routes_of(rest), routes_of_market(markets.last()));
        let j = routes_of(markets).index_of(route);
        assert(routes_of(markets)[j] == route);
        assert(markets.last() == markets[markets.len() - 1]);
        if j < before.len() {
            assert(before[j] == route);
            lemma_routes_come_from_markets(rest, route);
            let i = choose|i: int|
                0 <= i < rest.len() && route.market_id@ == (#[trigger] rest[i]).market_id@
                    && route.token_id@ == if route.is_yes {
                    rest[i].yes_token_id@
                } else {
                    rest[i].no_token_id@
                };
            assert(markets[i] == rest[i]);
        } else {
            assert(own[j - before.len()] == route);
        }
    }
}

/// A market that has tokens has a route for each of them.
pub proof fn law_every_token_has_a_route(markets: Seq<GammaMarket>, i: int)
    requires
        0 <= i < markets.len(),
    ensures
        markets[i].yes_token_id@.len() > 0 ==> route_of(
            routes_of(markets),
            markets[i].yes_token_id@,
        ) is Some,
        markets[i].no_token_id@.len() > 0 ==> route_of(
            routes_of(markets),
            markets[i].no_token_id@,
        ) is Some,
    decreases markets.len(),
{
    let rest = markets.drop_last();
    let (before, own) = (routes_of(rest), routes_of_market(markets.last()));
    let m = markets[i];
    assert(markets.last() == markets[markets.len() - 1]);
    if i < rest.len() {
        law_every_token_has_a_route(rest, i);
        assert(rest[i] == m);
        lemma_routes_after(before, own, m.yes_token_id@);
        lemma_routes_after(before, own, m.no_token_id@);
    } else {
        let yes = TokenRoute { token_id: m.yes_token_id, market_id: m.market_id, is_yes: true };
        let no = TokenRoute { token_id: m.no_token_id, market_id: m.market_id, is_yes: false };
        if m.yes_token_id@.len() > 0 {
            assert(own[0] == yes);
            assert((before + own)[before.len() as int] == yes);
            lemma_route_is_found(before + own, before.len() as int);
        }
        if m.no_token_id@.len() > 0 {
            assert(own.last() == no);
            assert((before + own)[before.len() + own.len() - 1] == no);
            lemma_route_is_found(before + own, before.len() + own.len() - 1);
        }
    }
}

proof fn lemma_route_is_found(routes: Seq<TokenRoute>, i: int)
    requires
        0 <= i < routes.len(),
    ensures
        route_of(routes, routes[i].token_id@) is Some,
    decreases routes.len(),
{
    if i < routes.len() - 1 {
        lemma_route_is_found(routes.drop_last(), i);
    }
}

proof fn lemma_routes_after(before: Seq<TokenRoute>, own: Seq<TokenRoute>, token_id: Seq<char>)
    ensures
        route_of(before, token_id) is Some ==> route_of(before + own, token_id) is Some,
{
    lemma_route_is_one(before, token_id);
    if let Some(route) = route_of(before, token_id) {
        let j = before.index_of(route);
        assert((before + own)[j] == before[j]);
        lemma_route_is_found(before + own, j);
    }
}

/// The price of a message is set on the side of its token and leaves the other side as it
/// was; only the spread of the YES side counts, where it is above zero.
pub proof fn law_price_is_set_on_its_side(
    m: PolymarketState,
    is_yes: bool,
    update: WsUpdateView,
    now_ms: u64,
)
    requires
        !update.spread.is_nan(),
    ensures
        ({
            let after = with_price(m, is_yes, update, now_ms);
            let (own, other, kept) = if is_yes {
                (after.yes_price, after.no_price, m.no_price)
            } else {
                (after.no_price, after.yes_price, m.yes_price)
            };
            &&& own == update.price
            &&& other == kept
            &&& after.last_updated_ms == now_ms
            &&& after.market_id == m.market_id
            &&& after.spread == if is_yes && update.spread.value() > 0 {
                update.spread
            } else {
                m.spread
            }
        }),
{
    reveal(Double::spec_lt);
    assert(magnitude(0) == 0);
}

/// A market stays exactly where it is among the fresh ones or has enough time left.
pub proof fn law_closed_markets_leave(
    markets: Seq<PolymarketState>,
    fresh: Seq<GammaMarket>,
    min_secs: i64,
    m: PolymarketState,
)
    ensures
        unexpired(markets, fresh, min_secs).contains(m) <==> markets.contains(m) && (
        m.time_remaining_secs >= min_secs || exists|i: int|
            0 <= i < fresh.len() && (#[trigger] fresh[i]).market_id@ == m.market_id@),
{
    let stays = |m: PolymarketState|
        is_fresh(fresh, m.market_id@) || m.time_remaining_secs >= min_secs;
    let kept = markets.filter(stays);
    if kept.contains(m) {
        markets.lemma_filter_contains_rev(stays, m);
        markets.lemma_filter_pred(stays, kept.index_of(m));
    }
    if markets.contains(m) && stays(m) {
        markets.lemma_filter_contains(stays, markets.index_of(m));
    }
}

/// A fresh market is shown as it was read, by the last that has its identifier.
pub proof fn law_fresh_markets_are_shown(
    markets: Seq<PolymarketState>,
    fresh: Seq<GammaMarket>,
    now_ms: u64,
)
    requires
        fresh.len() > 0,
    ensures
        ({
            let after = put_all(markets, fresh, now_ms);
            let last = fresh.last();
            exists|i: int|
                0 <= i < after.len() && (#[trigger] after[i]).market_id == last.market_id
                    && after[i].yes_price == last.yes_price && after[i].no_price == last.no_price
                    && after[i].spread == last.spread && after[i].time_remaining_secs
                    == last.time_remaining_secs && after[i].last_updated_ms == now_ms
        }),
{
    let before = put_all(markets, fresh.drop_last(), now_ms);
    let record = record_of(fresh.last(), now_ms);
    lemma_market_index(before, record.market_id@);
    let i = market_index(before, record.market_id@);
    let after = put_all(markets, fresh, now_ms);
    assert(after == put(before, record));
    assert(0 <= i < after.len() && after[i as int] == record);
}

/// Only a failure of the socket is announced; failures lengthen the next delay up to its
/// limit, an end that was no failure starts again at once from the shortest delay, and a lack
/// of markets neither lengthens nor shortens it.
pub proof fn law_failures_lengthen_the_delay(end: CycleEnd, backoff_secs: u64)
    requires
        0 < backoff_secs <= MAX_BACKOFF_SECS,
    ensures
        ({
            let pause = pause_after(end, backoff_secs);
            let failed = end == CycleEnd::FetchFailed || end == CycleEnd::Failed;
            &&& pause.announced <==> end == CycleEnd::Failed
            &&& failed ==> pause.delay_secs == backoff_secs && backoff_secs
                <= pause.backoff_secs <= MAX_BACKOFF_SECS
            &&& failed && backoff_secs < MAX_BACKOFF_SECS ==> backoff_secs < pause.backoff_secs
            &&& end == CycleEnd::Closed ==> pause.delay_secs == 0 && pause.backoff_secs == 1
            &&& end == CycleEnd::NoMarkets ==> pause.delay_secs == 60 && pause.backoff_secs
                == backoff_secs
        }),
{
}

} // verus!
