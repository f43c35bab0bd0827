//! Messages of the feeds, read into the types of the library.
use vstd::prelude::*;
use vstd::arithmetic::power2::lemma_pow2_pos;

use crate::json::{
    json_document, parse_json, parse_string_list, string_list, trees, views, Json, JsonView,
};
use crate::market_data::state::{BtcTick, PolymarketState, TradeSide};
use crate::numeric::Double;
use crate::numeric::arithmetic::one_in_units;
use crate::numeric::order::{
    law_difference_has_a_sign, law_exact_middle_is_met, law_integer_is_a_number,
    law_middle_lies_between, law_product_has_no_value, law_product_keeps_sign,
    law_sums_of_shares_are_finite, lemma_one, lemma_small_is_finite,
};
use crate::numeric::rounding::{lemma_magnitude_increases, magnitude};
use crate::text::{same_ignoring_case, same_text, same_word, trim, trimmed};
use crate::time::{clock_reading, millis_of};

pub use crate::time::now_millis;

verus! {

/// Why a trade message was not read.
#[derive(Clone, Copy, Debug, PartialEq, Eq, Structural)]
pub enum TradeError {
    NotJson,
    MissingPrice,
    BadPrice,
    MissingQuantity,
    BadQuantity,
    MissingTradeTime,
    MissingEventTime,
}

/// A trade message: price and quantity are decimals in strings, the trade and
/// event times are integers, and the buyer being the maker makes it a sale.
pub open spec fn trade_of(v: JsonView) -> Result<BtcTick, TradeError> {
    if v.text_field("p"@) is None {
        Err(TradeError::MissingPrice)
    } else if v.decimal_field("p"@) is None {
        Err(TradeError::BadPrice)
    } else if v.text_field("q"@) is None {
        Err(TradeError::MissingQuantity)
    } else if v.decimal_field("q"@) is None {
        Err(TradeError::BadQuantity)
    } else if v.count_field("T"@) is None {
        Err(TradeError::MissingTradeTime)
    } else if v.count_field("E"@) is None {
        Err(TradeError::MissingEventTime)
    } else {
        Ok(
            BtcTick {
                price: v.decimal_field("p"@)->0,
                quantity: v.decimal_field("q"@)->0,
                side: if v.flag_field("m"@) {
                    TradeSide::Sell
                } else {
                    TradeSide::Buy
                },
                timestamp_ms: v.count_field("T"@)->0,
                event_time_ms: v.count_field("E"@)->0,
            },
        )
    }
}

/// Reads a parsed trade message.
pub fn binance_trade(v: &Json) -> (r: Result<BtcTick, TradeError>)
    ensures
        r == trade_of(v@),
{
    let price: Double = match v.get_text("p") {
        None => return Err(TradeError::MissingPrice),
        Some(s) => match Double::parse(s) {
            None => return Err(TradeError::BadPrice),
            Some(x) => x,
        },
    };
    let quantity: Double = match v.get_text("q") {
        None => return Err(TradeError::MissingQuantity),
        Some(s) => match Double::parse(s) {
            None => return Err(TradeError::BadQuantity),
            Some(x) => x,
        },
    };
    let side: TradeSide = if v.get_flag("m") {
        TradeSide::Sell
    } else {
        TradeSide::Buy
    };
    let timestamp_ms: u64 = match v.get_count("T") {
        None => return Err(TradeError::MissingTradeTime),
        Some(t) => t,
    };
    let event_time_ms: u64 = match v.get_count("E") {
        None => return Err(TradeError::MissingEventTime),
        Some(t) => t,
    };
    Ok(BtcTick { price, quantity, side, timestamp_ms, event_time_ms })
}

/// Reads one message of the Binance trade stream.
pub fn normalize_binance_trade(raw: &str) -> (r: Result<BtcTick, TradeError>)
    ensures
        r == match json_document(raw@) {
            Some(v) => trade_of(v),
            None => Err(TradeError::NotJson),
        },
{
    match parse_json(raw) {
        Some(v) => binance_trade(&v),
        None => Err(TradeError::NotJson),
    }
}

/// A market as the Gamma API describes it.
#[derive(Debug)]
pub struct GammaMarket {
    pub market_id: String,
    pub question: String,
    pub yes_price: Double,
    pub no_price: Double,
    pub yes_token_id: String,
    pub no_token_id: String,
    pub spread: Double,
    pub volume_24h: Double,
    pub time_remaining_secs: i64,
}

/// The contents of a Gamma market.
pub struct GammaView {
    pub market_id: Seq<char>,
    pub question: Seq<char>,
    pub sides: Sides,
    pub spread: Double,
    pub volume_24h: Double,
    pub time_remaining_secs: i64,
}

impl View for GammaMarket {
    type V = GammaView;

    open spec fn view(&self) -> GammaView {
        GammaView {
            market_id: self.market_id@,
            question: self.question@,
            sides: Sides {
                yes_price: self.yes_price,
                no_price: self.no_price,
                yes_token: self.yes_token_id@,
                no_token: self.no_token_id@,
            },
            spread: self.spread,
            volume_24h: self.volume_24h,
            time_remaining_secs: self.time_remaining_secs,
        }
    }
}

/// The prices and tokens of the two outcomes.
pub struct Sides {
    pub yes_price: Double,
    pub no_price: Double,
    pub yes_token: Seq<char>,
    pub no_token: Seq<char>,
}

impl Sides {
    /// Nothing is known of either outcome.
    pub open spec fn unknown() -> Sides {
        Sides {
            yes_price: Double::zero(),
            no_price: Double::zero(),
            yes_token: Seq::empty(),
            no_token: Seq::empty(),
        }
    }

    /// A labelled outcome replaces what was known of its side.
    pub open spec fn with(self, outcome: Seq<char>, price: Double, token: Seq<char>) -> Sides {
        if same_ignoring_case(outcome, "Yes"@) {
            Sides { yes_price: price, yes_token: token, ..self }
        } else if same_ignoring_case(outcome, "No"@) {
            Sides { no_price: price, no_token: token, ..self }
        } else {
            self
        }
    }
}

/// The two outcomes, as they are found.
struct FoundSides {
    yes_price: Double,
    no_price: Double,
    yes_token: String,
    no_token: String,
}

impl View for FoundSides {
    type V = Sides;

    closed spec fn view(&self) -> Sides {
        Sides {
            yes_price: self.yes_price,
            no_price: self.no_price,
            yes_token: self.yes_token@,
            no_token: self.no_token@,
        }
    }
}

impl FoundSides {
    fn unknown() -> (r: FoundSides)
        ensures
            r@ == Sides::unknown(),
    {
        FoundSides {
            yes_price: Double::zero(),
            no_price: Double::zero(),
            yes_token: String::new(),
            no_token: String::new(),
        }
    }

    fn set(self, outcome: &str, price: Double, token: String) -> (r: FoundSides)
        ensures
            r@ == self@.with(outcome@, price, token@),
    {
        if same_word(outcome, "Yes") {
            FoundSides {
                yes_price: price,
                no_price: self.no_price,
                yes_token: token,
                no_token: self.no_token,
            }
        } else if same_word(outcome, "No") {
            FoundSides {
                yes_price: self.yes_price,
                no_price: price,
                yes_token: self.yes_token,
                no_token: token,
            }
        } else {
            self
        }
    }
}

/// A field that is a list of texts: an array, or a string that holds one.
pub open spec fn list_field(v: JsonView, key: Seq<char>) -> Option<Seq<Seq<char>>> {
    match v.field(key) {
        Some(JsonView::Array { items, .. }) => Some(
            items.map_values(|x: JsonView| x.plain_text()),
        ),
        Some(JsonView::Str(s)) => string_list(json_document(s)),
        _ => None,
    }
}

fn plain_texts(items: &Vec<Json>) -> (r: Vec<String>)
    ensures
        views(r@) == trees(items@).map_values(|x: JsonView| x.plain_text()),
{
    let mut out: Vec<String> = Vec::new();
    let mut i: usize = 0;
    while i < items.len()
        invariant
            i <= items.len(),
            out@.len() == i,
            forall|j: int| 0 <= j < i ==> (#[trigger] out@[j])@ == items@[j]@.plain_text(),
        decreases items.len() - i,
    {
        out.push(items[i].to_plain_text());
        i = i + 1;
    }
    assert(views(out@) =~= trees(items@).map_values(|x: JsonView| x.plain_text()));
    out
}

fn get_list(v: &Json, key: &str) -> (r: Option<Vec<String>>)
    ensures
        r is Some <==> list_field(v@, key@) is Some,
        r is Some ==> views(r->0@) == list_field(v@, key@)->0,
{
    match v.get(key) {
        Some(x) => {
            proof {
                x.lemma_parts();
            }
            match x {
                Json::Array { items, .. } => Some(plain_texts(items)),
                Json::Str(s) => parse_string_list(s.as_str()),
                _ => None,
            }
        },
        None => None,
    }
}

/// The price at a place in a list; zero where there is none.
pub open spec fn price_at(prices: Seq<Seq<char>>, i: int) -> Double {
    if 0 <= i < prices.len() && Double::reading(prices[i]) is Some {
        Double::reading(prices[i])->0
    } else {
        Double::zero()
    }
}

/// The token at a place in a list; empty where there is none.
pub open spec fn token_at(tokens: Seq<Seq<char>>, i: int) -> Seq<char> {
    if 0 <= i < tokens.len() {
        tokens[i]
    } else {
        Seq::empty()
    }
}

fn get_price_at(prices: &Vec<String>, i: usize) -> (r: Double)
    ensures
        r == price_at(views(prices@), i as int),
{
    if i < prices.len() {
        match Double::parse(prices[i].as_str()) {
            Some(x) => x,
            None => Double::zero(),
        }
    } else {
        Double::zero()
    }
}

fn get_token_at(tokens: &Vec<String>, i: usize) -> (r: String)
    ensures
        r@ == token_at(views(tokens@), i as int),
{
    if i < tokens.len() {
        tokens[i].clone()
    } else {
        String::new()
    }
}

/// Outcomes matched by position with prices and tokens.
pub open spec fn sides_by_position(
    outcomes: Seq<Seq<char>>,
    prices: Seq<Seq<char>>,
    tokens: Seq<Seq<char>>,
) -> Sides
    decreases outcomes.len(),
{
    if outcomes.len() == 0 {
        Sides::unknown()
    } else {
        let i = outcomes.len() - 1;
        sides_by_position(outcomes.drop_last(), prices, tokens).with(
            outcomes.last(),
            price_at(prices, i),
            token_at(tokens, i),
        )
    }
}

fn match_by_position(outcomes: &Vec<String>, prices: &Vec<String>, tokens: &Vec<String>) -> (r:
    FoundSides)
    ensures
        r@ == sides_by_position(views(outcomes@), views(prices@), views(tokens@)),
{
    let mut sides: FoundSides = FoundSides::unknown();
    let mut i: usize = 0;
    let ghost all = views(outcomes@);
    while i < outcomes.len()
        invariant
            i <= outcomes.len(),
            all == views(outcomes@),
            sides@ == sides_by_position(all.take(i as int), views(prices@), views(tokens@)),
        decreases outcomes.len() - i,
    {
        assert(all.take(i + 1).drop_last() =~= all.take(i as int));
        assert(all.take(i + 1).last() == outcomes@[i as int]@);
        sides =
        sides.set(outcomes[i].as_str(), get_price_at(prices, i), get_token_at(tokens, i));
        i = i + 1;
    }
    assert(all.take(i as int) =~= all);
    sides
}

/// The outcomes by the lists of tokens, prices and labels, where those are there;
/// labels that are missing read as yes and no, and where there are fewer than two
/// labels the first two tokens are yes and no.
pub open spec fn listed_sides(v: JsonView) -> Option<Sides> {
    let tokens = list_field(v, "clobTokenIds"@);
    let prices = list_field(v, "outcomePrices"@);
    let outcomes = match list_field(v, "outcomes"@) {
        Some(s) => s,
        None => seq!["Yes"@, "No"@],
    };
    if tokens is None || prices is None {
        None
    } else if outcomes.len() >= 2 {
        Some(sides_by_position(outcomes, prices->0, tokens->0))
    } else if tokens->0.len() >= 2 {
        Some(
            Sides {
                yes_price: price_at(prices->0, 0),
                no_price: price_at(prices->0, 1),
                yes_token: tokens->0[0],
                no_token: tokens->0[1],
            },
        )
    } else {
        None
    }
}

fn find_listed_sides(v: &Json) -> (r: Option<FoundSides>)
    ensures
        r is Some <==> listed_sides(v@) is Some,
        r is Some ==> r->0@ == listed_sides(v@)->0,
{
    let tokens: Vec<String> = match get_list(v, "clobTokenIds") {
        Some(t) => t,
        None => return None,
    };
    let prices: Vec<String> = match get_list(v, "outcomePrices") {
        Some(p) => p,
        None => return None,
    };
    let outcomes: Vec<String> = match get_list(v, "outcomes") {
        Some(o) => o,
        None => {
            let mut o: Vec<String> = Vec::new();
            o.push("Yes".to_owned());
            o.push("No".to_owned());
            assert(views(o@) =~= seq!["Yes"@, "No"@]);
            o
        },
    };
    if outcomes.len() >= 2 {
        Some(match_by_position(&outcomes, &prices, &tokens))
    } else if tokens.len() >= 2 {
        Some(
            FoundSides {
                yes_price: get_price_at(&prices, 0),
                no_price: get_price_at(&prices, 1),
                yes_token: tokens[0].clone(),
                no_token: tokens[1].clone(),
            },
        )
    } else {
        None
    }
}

/// A text field, or the empty text.
pub open spec fn text_or_empty(v: JsonView, key: Seq<char>) -> Seq<char> {
    match v.text_field(key) {
        Some(s) => s,
        None => Seq::empty(),
    }
}

fn get_text_or_empty(v: &Json, key: &str) -> (r: String)
    ensures
        r@ == text_or_empty(v@, key@),
{
    match v.get_text(key) {
        Some(s) => s.to_owned(),
        None => String::new(),
    }
}

/// A number or what a string reads as, or else another number.
pub open spec fn number_or(v: JsonView, key: Seq<char>, other: Double) -> Double {
    match v.number_or_decimal(key) {
        Some(x) => x,
        None => other,
    }
}

fn get_number_or(v: &Json, key: &str, other: Double) -> (r: Double)
    ensures
        r == number_or(v@, key@, other),
{
    match v.get_number_or_decimal(key) {
        Some(x) => x,
        None => other,
    }
}

/// The outcomes of an array of token objects.
pub open spec fn sides_by_token(tokens: Seq<JsonView>) -> Sides
    decreases tokens.len(),
{
    if tokens.len() == 0 {
        Sides::unknown()
    } else {
        let token = tokens.last();
        sides_by_token(tokens.drop_last()).with(
            text_or_empty(token, "outcome"@),
            number_or(token, "price"@, Double::zero()),
            text_or_empty(token, "token_id"@),
        )
    }
}

fn match_by_token(tokens: &Vec<Json>) -> (r: FoundSides)
    ensures
        r@ == sides_by_token(trees(tokens@)),
{
    let ghost all = trees(tokens@);
    let mut sides: FoundSides = FoundSides::unknown();
    let mut i: usize = 0;
    while i < tokens.len()
        invariant
            i <= tokens@.len(),
            all == trees(tokens@),
            sides@ == sides_by_token(all.take(i as int)),
        decreases tokens@.len() - i,
    {
        assert(all.take(i + 1).drop_last() =~= all.take(i as int));
        assert(all.take(i + 1).last() == tokens@[i as int]@);
        let outcome: String = get_text_or_empty(&tokens[i], "outcome");
        let price: Double = get_number_or(&tokens[i], "price", Double::zero());
        let token_id: String = get_text_or_empty(&tokens[i], "token_id");
        sides = sides.set(outcome.as_str(), price, token_id);
        i = i + 1;
    }
    assert(all.take(i as int) =~= all);
    sides
}

/// The outcomes by lists or else by token objects.
pub open spec fn market_sides(v: JsonView) -> Option<Sides> {
    match listed_sides(v) {
        Some(s) => Some(s),
        None => match v.items_field("tokens"@) {
            Some(tokens) => Some(sides_by_token(tokens)),
            None => None,
        },
    }
}

/// The traded volume, under one of the names that it goes by.
pub open spec fn market_volume(v: JsonView) -> Double {
    if v.number_field("volume24hr"@) is Some {
        v.number_field("volume24hr"@)->0
    } else if v.number_field("volume24Hr"@) is Some {
        v.number_field("volume24Hr"@)->0
    } else if v.decimal_or_number("volume"@) is Some {
        v.decimal_or_number("volume"@)->0
    } else {
        Double::zero()
    }
}

fn get_volume(v: &Json) -> (r: Double)
    ensures
        r == market_volume(v@),
{
    match v.get_number("volume24hr") {
        Some(x) => return x,
        None => {},
    }
    match v.get_number("volume24Hr") {
        Some(x) => return x,
        None => {},
    }
    match v.get_decimal_or_number("volume") {
        Some(x) => x,
        None => Double::zero(),
    }
}

/// A market object of the Gamma API, read at one reading of the clock. It needs an
/// identifier and a description of its outcomes.
pub open spec fn gamma_market_of(v: JsonView, reading: Option<(u64, u32)>) -> Option<GammaView> {
    if v.text_field("conditionId"@) is None || market_sides(v) is None {
        None
    } else {
        let sides = market_sides(v)->0;
        let ask = number_or(v, "bestAsk"@, sides.yes_price);
        let bid = number_or(v, "bestBid"@, sides.yes_price);
        Some(
            GammaView {
                market_id: v.text_field("conditionId"@)->0,
                question: match v.text_field("question"@) {
                    Some(q) => q,
                    None => "Unknown question"@,
                },
                sides,
                spread: ask.sub(bid).abs(),
                volume_24h: market_volume(v),
                time_remaining_secs: time_remaining(
                    text_or_empty(v, "endDate"@),
                    Double::zero(),
                    reading,
                ),
            },
        )
    }
}

/// Reads one market object of the Gamma API at a reading of the clock.
pub fn normalize_gamma_market_at(v: &Json, reading: Option<(u64, u32)>) -> (r: Option<GammaMarket>)
    ensures
        r is Some <==> gamma_market_of(v@, reading) is Some,
        r is Some ==> r->0@ == gamma_market_of(v@, reading)->0,
{
    let market_id: String = match v.get_text("conditionId") {
        Some(s) => s.to_owned(),
        None => return None,
    };
    let question: String = match v.get_text("question") {
        Some(s) => s.to_owned(),
        None => "Unknown question".to_owned(),
    };
    let sides: FoundSides = match find_listed_sides(v) {
        Some(s) => s,
        None => match v.get_items("tokens") {
            Some(tokens) => match_by_token(tokens),
            None => return None,
        },
    };
    let volume_24h: Double = get_volume(v);
    let end_date: String = get_text_or_empty(v, "endDate");
    let time_remaining_secs: i64 = compute_time_remaining_at(
        end_date.as_str(),
        Double::zero(),
        reading,
    );
    let yes_ask: Double = get_number_or(v, "bestAsk", sides.yes_price);
    let yes_bid: Double = get_number_or(v, "bestBid", sides.yes_price);
    Some(
        GammaMarket {
            market_id,
            question,
            yes_price: sides.yes_price,
            no_price: sides.no_price,
            yes_token_id: sides.yes_token,
            no_token_id: sides.no_token,
            spread: yes_ask.sub(yes_bid).abs(),
            volume_24h,
            time_remaining_secs,
        },
    )
}

/// Reads one market object of the Gamma API.
pub fn normalize_gamma_market(v: &Json) -> (r: Option<GammaMarket>)
    ensures
        exists|reading: Option<(u64, u32)>|
            {
                let found = #[trigger] gamma_market_of(v@, reading);
                &&& r is Some <==> found is Some
                &&& r is Some ==> r->0@ == found->0
            },
{
    let reading: Option<(u64, u32)> = clock_reading();
    normalize_gamma_market_at(v, reading)
}

/// The feed's record of a Gamma market, stamped with a time.
pub fn gamma_market_to_state_at(m: &GammaMarket, now_ms: u64) -> (r: PolymarketState)
    ensures
        r == (PolymarketState {
            market_id: m.market_id,
            question: m.question,
            yes_price: m.yes_price,
            no_price: m.no_price,
            spread: m.spread,
            volume_24h: m.volume_24h,
            time_remaining_secs: m.time_remaining_secs,
            last_updated_ms: now_ms,
        }),
{
    PolymarketState {
        market_id: m.market_id.clone(),
        question: m.question.clone(),
        yes_price: m.yes_price,
        no_price: m.no_price,
        spread: m.spread,
        volume_24h: m.volume_24h,
        time_remaining_secs: m.time_remaining_secs,
        last_updated_ms: now_ms,
    }
}

/// The feed's record of a Gamma market as of now.
pub fn gamma_market_to_state(m: &GammaMarket) -> (r: PolymarketState)
    ensures
        exists|reading: Option<(u64, u32)>|
            r == (PolymarketState {
                market_id: m.market_id,
                question: m.question,
                yes_price: m.yes_price,
                no_price: m.no_price,
                spread: m.spread,
                volume_24h: m.volume_24h,
                time_remaining_secs: m.time_remaining_secs,
                last_updated_ms: #[trigger] millis_of(reading),
            }),
{
    gamma_market_to_state_at(m, now_millis())
}

/// A message that carries no data: a keepalive or an answer of the protocol.
pub open spec fn is_control(raw: Seq<char>) -> bool {
    let s = trimmed(raw);
    s == "INVALID OPERATION"@ || s == "PONG"@ || s == "PING"@ || s == ""@
}

/// Whether a message of the socket carries no data.
pub fn is_ws_control_message(raw: &str) -> (r: bool)
    ensures
        r == is_control(raw@),
{
    let s: String = trim(raw);
    same_text(s.as_str(), "INVALID OPERATION") || same_text(s.as_str(), "PONG") || same_text(
        s.as_str(),
        "PING",
    ) || same_text(s.as_str(), "")
}

/// A price update from one message of the socket.
#[derive(Debug)]
pub struct WsMarketUpdate {
    pub token_id: String,
    pub price: Double,
    pub spread: Double,
    pub sequence: Option<u64>,
}

/// The contents of a price update.
pub struct WsUpdateView {
    pub token_id: Seq<char>,
    pub price: Double,
    pub spread: Double,
    pub sequence: Option<u64>,
}

impl View for WsMarketUpdate {
    type V = WsUpdateView;

    open spec fn view(&self) -> WsUpdateView {
        WsUpdateView {
            token_id: self.token_id@,
            price: self.price,
            spread: self.spread,
            sequence: self.sequence,
        }
    }
}

/// The best of the prices on one side of a book, the highest bid or lowest ask.
pub open spec fn best_price(levels: Seq<JsonView>, is_bid: bool) -> Option<Double>
    decreases levels.len(),
{
    if levels.len() == 0 {
        None
    } else {
        let before = best_price(levels.drop_last(), is_bid);
        match levels.last().decimal_or_number("price"@) {
            None => before,
            Some(p) => match before {
                None => Some(p),
                Some(best) => Some(
                    if is_bid {
                        best.max(p)
                    } else {
                        best.min(p)
                    },
                ),
            },
        }
    }
}

/// The best price on one side of a book; zero where there is none.
pub open spec fn top_price(book: JsonView, side: Seq<char>, is_bid: bool) -> Double {
    match book.items_field(side) {
        Some(levels) => match best_price(levels, is_bid) {
            Some(p) => p,
            None => Double::zero(),
        },
        None => Double::zero(),
    }
}

/// The best price on one side of an order book.
pub fn top_of_book(book: &Json, side: &str, is_bid: bool) -> (r: Double)
    ensures
        r == top_price(book@, side@, is_bid),
{
    match book.get_items(side) {
        Some(levels) => match best_of(levels, is_bid) {
            Some(p) => p,
            None => Double::zero(),
        },
        None => Double::zero(),
    }
}

fn best_of(levels: &Vec<Json>, is_bid: bool) -> (r: Option<Double>)
    ensures
        r == best_price(trees(levels@), is_bid),
{
    let ghost all = trees(levels@);
    let mut best: Option<Double> = None;
    let mut i: usize = 0;
    while i < levels.len()
        invariant
            i <= levels@.len(),
            all == trees(levels@),
            best == best_price(all.take(i as int), is_bid),
        decreases levels@.len() - i,
    {
        assert(all.take(i + 1).drop_last() =~= all.take(i as int));
        assert(all.take(i + 1).last() == levels@[i as int]@);
        match levels[i].get_decimal_or_number("price") {
            None => {},
            Some(p) => {
                best =
                Some(
                    match best {
                        None => p,
                        Some(b) => if is_bid {
                            b.max(p)
                        } else {
                            b.min(p)
                        },
                    },
                );
            },
        }
        i = i + 1;
    }
    assert(all.take(i as int) =~= all);
    best
}

/// The middle of a book whose best bid is above zero and below its best ask, which
/// is below one.
pub open spec fn book_mid(book: JsonView) -> Option<Double> {
    let bid = top_price(book, "bids"@, true);
    let ask = top_price(book, "asks"@, false);
    if bid.gt(Double::zero()) && ask.lt(Double::one()) && bid.lt(ask) {
        Some(bid.add(ask).div(Double::from_u64(2)))
    } else {
        None
    }
}

/// The middle of an order book, where it has one.
pub fn extract_mid_from_book(book: &Json) -> (r: Option<Double>)
    ensures
        r == book_mid(book@),
{
    let best_bid: Double = top_of_book(book, "bids", true);
    let best_ask: Double = top_of_book(book, "asks", false);
    if best_bid.gt(Double::zero()) && best_ask.lt(Double::one()) && best_bid.lt(best_ask) {
        Some(best_bid.add(best_ask).div(Double::from_u64(2)))
    } else {
        None
    }
}

/// The price of a change message: its own, or that of its last entry.
pub open spec fn changed_price(v: JsonView) -> Option<Double> {
    if v.decimal_or_number("price"@) is Some {
        v.decimal_or_number("price"@)
    } else {
        match v.items_field("changes"@) {
            Some(entries) => if entries.len() > 0 {
                entries.last().decimal_or_number("price"@)
            } else {
                None
            },
            None => None,
        }
    }
}

/// The price and spread that a message of a kind carries.
pub open spec fn quoted(v: JsonView, event_type: Seq<char>) -> Option<(Double, Double)> {
    let plain = |p: Option<Double>| match p {
        Some(x) => Some((x, Double::zero())),
        None => None::<(Double, Double)>,
    };
    if event_type == "book"@ {
        match book_mid(v) {
            Some(mid) => Some(
                (mid, top_price(v, "asks"@, false).sub(top_price(v, "bids"@, true)).abs()),
            ),
            None => None,
        }
    } else if event_type == "last_trade_price"@ {
        plain(v.decimal_or_number("price"@))
    } else if event_type == "price_change"@ {
        plain(changed_price(v))
    } else {
        None
    }
}

/// The update in a message of the socket, where it holds one: it names its kind and
/// asset, and its kind carries a price.
pub open spec fn update_of(v: JsonView) -> Option<WsUpdateView> {
    if v.text_field("event_type"@) is None || v.text_field("asset_id"@) is None {
        None
    } else {
        match quoted(v, v.text_field("event_type"@)->0) {
            Some((price, spread)) => Some(
                WsUpdateView {
                    token_id: v.text_field("asset_id"@)->0,
                    price,
                    spread,
                    sequence: v.count_field("sequence"@),
                },
            ),
            None => None,
        }
    }
}

fn get_changed_price(v: &Json) -> (r: Option<Double>)
    ensures
        r == changed_price(v@),
{
    match v.get_decimal_or_number("price") {
        Some(p) => Some(p),
        None => match v.get_items("changes") {
            Some(entries) => if entries.len() > 0 {
                entries[entries.len() - 1].get_decimal_or_number("price")
            } else {
                None
            },
            None => None,
        },
    }
}

fn get_quoted(v: &Json, event_type: &str) -> (r: Option<(Double, Double)>)
    ensures
        r == quoted(v@, event_type@),
{
    if same_text(event_type, "book") {
        match extract_mid_from_book(v) {
            Some(mid) => {
                let best_bid: Double = top_of_book(v, "bids", true);
                let best_ask: Double = top_of_book(v, "asks", false);
                Some((mid, best_ask.sub(best_bid).abs()))
            },
            None => None,
        }
    } else if same_text(event_type, "last_trade_price") {
        match v.get_decimal_or_number("price") {
            Some(p) => Some((p, Double::zero())),
            None => None,
        }
    } else if same_text(event_type, "price_change") {
        match get_changed_price(v) {
            Some(p) => Some((p, Double::zero())),
            None => None,
        }
    } else {
        None
    }
}

/// Reads a parsed message of the socket.
pub fn ws_update(v: &Json) -> (r: Option<WsMarketUpdate>)
    ensures
        r is Some <==> update_of(v@) is Some,
        r is Some ==> r->0@ == update_of(v@)->0,
{
    let event_type: &str = match v.get_text("event_type") {
        Some(t) => t,
        None => return None,
    };
    let asset_id: &str = match v.get_text("asset_id") {
        Some(id) => id,
        None => return None,
    };
    match get_quoted(v, event_type) {
        Some((price, spread)) => Some(
            WsMarketUpdate {
                token_id: asset_id.to_owned(),
                price,
                spread,
                sequence: v.get_count("sequence"),
            },
        ),
        None => None,
    }
}

/// A message that is neither a control message nor JSON.
#[derive(Clone, Copy, Debug, PartialEq, Eq, Structural)]
pub struct NotJson;

/// Reads one message of the Polymarket socket: a control message and one without a
/// price give nothing, and a text that is not JSON is an error.
pub fn normalize_polymarket_ws_msg(raw: &str) -> (r: Result<Option<WsMarketUpdate>, NotJson>)
    ensures
        is_control(raw@) ==> r is Ok && r->Ok_0 is None,
        !is_control(raw@) ==> match json_document(raw@) {
            None => r is Err,
            Some(v) => {
                &&& r is Ok
                &&& r->Ok_0 is Some <==> update_of(v) is Some
                &&& r->Ok_0 is Some ==> r->Ok_0->0@ == update_of(v)->0
            },
        },
{
    if is_ws_control_message(raw) {
        return Ok(None);
    }
    match parse_json(raw) {
        Some(v) => Ok(ws_update(&v)),
        None => Err(NotJson),
    }
}

/// The instant that a date text names: seconds since the epoch and nanoseconds
/// beyond them, a second or more of them inside a leap second.
pub uninterp spec fn instant_of(text: Seq<char>) -> Option<(i64, u32)>;

/// Calls `chrono`'s parser of `DateTime<Utc>` and takes the timestamp and the
/// nanoseconds of the second. Claims that they depend on the text alone.
#[verifier::external_body]
fn parse_instant(text: &str) -> (r: Option<(i64, u32)>)
    ensures
        r == instant_of(text@),
{
    match text.parse::<chrono::DateTime<chrono::Utc>>() {
        Ok(t) => Some((t.timestamp(), t.timestamp_subsec_nanos())),
        Err(_) => None,
    }
}

/// Nanoseconds since the epoch; zero before it.
pub open spec fn nanos_of(reading: Option<(u64, u32)>) -> int {
    match reading {
        Some((secs, nanos)) => secs * 1_000_000_000 + nanos,
        None => 0,
    }
}

/// Whole seconds from an instant in nanoseconds to another, the part of a second
/// cut off. An instant in a leap second counts that second only from times of day
/// that do not come after it.
pub open spec fn seconds_until(end: (i64, u32), now_nanos: int) -> int {
    let now_secs = now_nanos / 1_000_000_000;
    let leap: int = if end.1 >= 1_000_000_000 && end.0 % 86400 < now_secs % 86400 {
        1
    } else {
        0
    };
    let nanos = (end.0 - leap) * 1_000_000_000 + end.1 - now_nanos;
    if nanos >= 0 {
        nanos / 1_000_000_000
    } else {
        -((-nanos) / 1_000_000_000)
    }
}

/// An integer held to the range of 64 bits.
pub open spec fn held(n: int) -> i64 {
    if n > i64::MAX {
        i64::MAX
    } else if n < i64::MIN {
        i64::MIN
    } else {
        n as i64
    }
}

/// Seconds from a reading of the clock, corrected by the server's offset, to a date;
/// the largest integer where the text is no date.
pub open spec fn time_remaining(
    end_date: Seq<char>,
    server_offset_secs: Double,
    reading: Option<(u64, u32)>,
) -> i64 {
    if end_date.len() == 0 {
        i64::MAX
    } else {
        match instant_of(end_date) {
            None => i64::MAX,
            Some(end) => {
                let offset_ms = server_offset_secs.mul(Double::from_u64(1000)).to_i64();
                held(seconds_until(end, nanos_of(reading) + offset_ms * 1_000_000))
            },
        }
    }
}

/// Seconds from an instant in nanoseconds to another.
pub fn seconds_between(end: (i64, u32), now_nanos: i128) -> (r: i64)
    requires
        -0x10_0000_0000_0000_0000_0000_0000 <= now_nanos
            <= 0x10_0000_0000_0000_0000_0000_0000,
    ensures
        r == held(seconds_until(end, now_nanos as int)),
{
    let billion: i128 = 1_000_000_000;
    let day: i128 = 86400;
    let now_secs: i128 = floor_div(now_nanos, billion);
    let leap: i128 = if end.1 >= 1_000_000_000 && end.0 as i128 - floor_div(end.0 as i128, day)
        * day < now_secs - floor_div(now_secs, day) * day {
        1
    } else {
        0
    };
    let nanos: i128 = (end.0 as i128 - leap) * billion + end.1 as i128 - now_nanos;
    let n: i128 = if nanos >= 0 {
        nanos / billion
    } else {
        -((-nanos) / billion)
    };
    if n > i64::MAX as i128 {
        i64::MAX
    } else if n < i64::MIN as i128 {
        i64::MIN
    } else {
        n as i64
    }
}

/// The quotient rounded down.
fn floor_div(a: i128, b: i128) -> (r: i128)
    requires
        b == 86400 || b == 1_000_000_000,
        a > i128::MIN,
    ensures
        r == a as int / b as int,
        r * b == a - a as int % b as int,
{
    if a >= 0 {
        a / b
    } else {
        let up: i128 = (-a) / b;
        if up * b == -a {
            -up
        } else {
            -up - 1
        }
    }
}

/// Seconds from a reading of the clock to a date.
pub fn compute_time_remaining_at(
    end_date: &str,
    server_offset_secs: Double,
    reading: Option<(u64, u32)>,
) -> (r: i64)
    ensures
        r == time_remaining(end_date@, server_offset_secs, reading),
{
    if end_date.is_empty() {
        return i64::MAX;
    }
    match parse_instant(end_date) {
        None => i64::MAX,
        Some(end) => {
            let offset_ms: i64 = server_offset_secs.mul(Double::from_u64(1000)).to_i64();
            let now: i128 = match reading {
                Some((secs, nanos)) => secs as i128 * 1_000_000_000 + nanos as i128,
                None => 0,
            };
            seconds_between(end, now + offset_ms as i128 * 1_000_000)
        },
    }
}

/// Seconds left until a date, by the clock and the server's offset from it.
pub fn compute_time_remaining(end_date: &str, server_offset_secs: Double) -> (r: i64)
    ensures
        exists|reading: Option<(u64, u32)>|
            r == #[trigger] time_remaining(end_date@, server_offset_secs, reading),
{
    let reading: Option<(u64, u32)> = clock_reading();
    compute_time_remaining_at(end_date, server_offset_secs, reading)
}

/// A trade is a sale exactly where the buyer is the maker, and nothing else in a message
/// tells a sale from a purchase.
pub proof fn law_maker_who_buys_is_sold_to(v: JsonView, other: JsonView)
    requires
        trade_of(v) is Ok,
        trade_of(other) is Ok,
    ensures
        trade_of(v)->Ok_0.side == TradeSide::Sell <==> v.flag_field("m"@),
        trade_of(v)->Ok_0.side == trade_of(other)->Ok_0.side <==> v.flag_field("m"@)
            == other.flag_field("m"@),
        trade_of(v)->Ok_0.timestamp_ms == v.count_field("T"@)->0,
        trade_of(v)->Ok_0.event_time_ms == v.count_field("E"@)->0,
        trade_of(v)->Ok_0.price == v.decimal_field("p"@)->0,
        trade_of(v)->Ok_0.quantity == v.decimal_field("q"@)->0,
{
}

/// The best bid is a price of the book that none is above, the best ask one that none is
/// below, and there is one exactly where a level has a price.
pub proof fn law_best_price_bounds_its_side(levels: Seq<JsonView>, is_bid: bool, i: int)
    requires
        0 <= i < levels.len(),
        levels[i].decimal_or_number("price"@) is Some,
        forall|j: int|
            #![trigger levels[j]]
            0 <= j < levels.len() && levels[j].decimal_or_number("price"@) is Some
                ==> !levels[j].decimal_or_number("price"@)->0.is_nan(),
    ensures
        best_price(levels, is_bid) is Some,
        is_bid ==> levels[i].decimal_or_number("price"@)->0.value() <= best_price(
            levels,
            is_bid,
        )->0.value(),
        !is_bid ==> best_price(levels, is_bid)->0.value() <= levels[i].decimal_or_number(
            "price"@,
        )->0.value(),
    decreases levels.len(),
{
    reveal(Double::spec_lt);
    let rest = levels.drop_last();
    assert(forall|j: int| 0 <= j < rest.len() ==> rest[j] == levels[j]);
    law_best_price_is_a_level(rest, is_bid);
    if i < rest.len() {
        law_best_price_bounds_its_side(rest, is_bid, i);
    }
    assert(levels.last() == levels[levels.len() - 1]);
}

/// A best price is that of one of the levels.
pub proof fn law_best_price_is_a_level(levels: Seq<JsonView>, is_bid: bool)
    ensures
        best_price(levels, is_bid) is Some ==> exists|j: int|
            0 <= j < levels.len() && (#[trigger] levels[j]).decimal_or_number("price"@)
                == best_price(levels, is_bid),
    decreases levels.len(),
{
    if levels.len() > 0 {
        let rest = levels.drop_last();
        law_best_price_is_a_level(rest, is_bid);
        assert(forall|j: int| 0 <= j < rest.len() ==> rest[j] == levels[j]);
        assert(levels.last() == levels[levels.len() - 1]);
        if best_price(rest, is_bid) is Some {
            let j = choose|j: int|
                0 <= j < rest.len() && (#[trigger] rest[j]).decimal_or_number("price"@)
                    == best_price(rest, is_bid);
            assert(levels[j].decimal_or_number("price"@) == best_price(rest, is_bid));
        }
    }
}

/// The middle of a book lies between its best bid and its best ask, which are between zero
/// and one, is the exact middle where that is a double, and a book has one exactly where
/// these are in order.
pub proof fn law_book_middle_lies_between(book: JsonView, middle: Double)
    ensures
        ({
            let bid = top_price(book, "bids"@, true);
            let ask = top_price(book, "asks"@, false);
            &&& !bid.is_nan() && !ask.is_nan() ==> (book_mid(book) is Some <==> 0 < bid.value()
                < ask.value() < Double::one().value())
            &&& book_mid(book) matches Some(mid) ==> bid.value() <= mid.value() <= ask.value()
            &&& book_mid(book) is Some && !middle.is_nan() && bid.value() + ask.value() == 2
                * middle.value() ==> book_mid(book) == Some(middle)
        }),
{
    reveal(Double::spec_lt);
    assert(magnitude(0) == 0);
    lemma_one();
    let bid = top_price(book, "bids"@, true);
    let ask = top_price(book, "asks"@, false);
    if book_mid(book) is Some {
        lemma_small_is_finite(bid);
        lemma_small_is_finite(ask);
        law_sums_of_shares_are_finite(ask, ask);
        law_middle_lies_between(bid, ask);
        if !middle.is_nan() && bid.value() + ask.value() == 2 * middle.value() {
            law_sums_of_shares_are_finite(middle, middle);
            law_exact_middle_is_met(bid, ask, middle);
        }
    }
}

/// A message about a book has the spread of that book, which is above zero; a message
/// about a price has none.
pub proof fn law_spread_comes_from_the_book(v: JsonView, event_type: Seq<char>)
    ensures
        quoted(v, event_type) matches Some((price, spread)) ==> {
            &&& event_type == "book"@ ==> spread.value() > 0 && Some(price) == book_mid(v)
            &&& event_type != "book"@ ==> spread.value() == 0
        },
{
    reveal(Double::spec_lt);
    reveal(Double::spec_abs);
    assert(magnitude(0) == 0);
    lemma_one();
    if quoted(v, event_type) is Some && event_type == "book"@ {
        let bid = top_price(v, "bids"@, true);
        let ask = top_price(v, "asks"@, false);
        lemma_small_is_finite(bid);
        lemma_small_is_finite(ask);
        law_difference_has_a_sign(ask, bid);
    }
}

/// The last label that is a word, in either case, stands at a place.
pub open spec fn is_last_named(labels: Seq<Seq<char>>, i: int, word: Seq<char>) -> bool {
    &&& 0 <= i < labels.len()
    &&& same_ignoring_case(labels[i], word)
    &&& forall|j: int| i < j < labels.len() ==> !same_ignoring_case(#[trigger] labels[j], word)
}

/// The labels of token objects.
pub open spec fn labels_of(tokens: Seq<JsonView>) -> Seq<Seq<char>> {
    tokens.map_values(|token: JsonView| text_or_empty(token, "outcome"@))
}

/// An outcome has the price and token at the place of the last label that names it.
pub proof fn law_sides_stand_at_their_labels(
    outcomes: Seq<Seq<char>>,
    prices: Seq<Seq<char>>,
    tokens: Seq<Seq<char>>,
    i: int,
)
    ensures
        ({
            let sides = sides_by_position(outcomes, prices, tokens);
            &&& is_last_named(outcomes, i, "Yes"@) ==> {
                &&& sides.yes_price == price_at(prices, i)
                &&& sides.yes_token == token_at(tokens, i)
            }
            &&& is_last_named(outcomes, i, "No"@) ==> {
                &&& sides.no_price == price_at(prices, i)
                &&& sides.no_token == token_at(tokens, i)
            }
        }),
    decreases outcomes.len(),
{
    if 0 <= i < outcomes.len() {
        let rest = outcomes.drop_last();
        assert(forall|j: int| 0 <= j < rest.len() ==> rest[j] == outcomes[j]);
        assert(outcomes.last() == outcomes[outcomes.len() - 1]);
        lemma_yes_is_not_no(outcomes.last());
        law_sides_stand_at_their_labels(rest, prices, tokens, i);
    }
}

/// An outcome has the price and token of the last token object that is labelled with it.
pub proof fn law_sides_stand_at_their_tokens(tokens: Seq<JsonView>, i: int)
    ensures
        ({
            let sides = sides_by_token(tokens);
            let price = number_or(tokens[i], "price"@, Double::zero());
            let token = text_or_empty(tokens[i], "token_id"@);
            &&& is_last_named(labels_of(tokens), i, "Yes"@) ==> sides.yes_price == price
                && sides.yes_token == token
            &&& is_last_named(labels_of(tokens), i, "No"@) ==> sides.no_price == price
                && sides.no_token == token
        }),
    decreases tokens.len(),
{
    if 0 <= i < tokens.len() {
        let rest = tokens.drop_last();
        let (labels, rest_labels) = (labels_of(tokens), labels_of(rest));
        assert(forall|j: int| 0 <= j < rest.len() ==> rest_labels[j] == labels[j]);
        assert(labels.last() == text_or_empty(tokens.last(), "outcome"@));
        assert(labels[tokens.len() - 1] == labels.last());
        lemma_yes_is_not_no(labels.last());
        law_sides_stand_at_their_tokens(rest, i);
    }
}

/// No label names both outcomes.
proof fn lemma_yes_is_not_no(label: Seq<char>)
    ensures
        !(same_ignoring_case(label, "Yes"@) && same_ignoring_case(label, "No"@)),
{
    reveal_strlit("Yes");
    reveal_strlit("No");
}

/// The seconds until an instant are the whole ones between the two, counted towards zero:
/// none are left from the instant on, and a later time never has more of them.
pub proof fn law_seconds_run_down(end: (i64, u32), now_nanos: int, later_nanos: int)
    requires
        end.1 < 1_000_000_000,
        now_nanos <= later_nanos,
    ensures
        ({
            let left = end.0 * 1_000_000_000 + end.1 - now_nanos;
            let secs = seconds_until(end, now_nanos);
            &&& left >= 0 ==> secs * 1_000_000_000 <= left < (secs + 1) * 1_000_000_000
            &&& left <= 0 ==> (secs - 1) * 1_000_000_000 < left <= secs * 1_000_000_000
            &&& seconds_until(end, later_nanos) <= secs
            &&& i64::MIN <= secs <= i64::MAX ==> held(secs) == secs
        }),
{
}

/// A Gamma market has no negative spread, and reads the time until its end date.
pub proof fn law_gamma_spread_is_the_distance(v: JsonView, reading: Option<(u64, u32)>)
    requires
        gamma_market_of(v, reading) is Some,
    ensures
        ({
            let m = gamma_market_of(v, reading)->0;
            let ask = number_or(v, "bestAsk"@, m.sides.yes_price);
            let bid = number_or(v, "bestBid"@, m.sides.yes_price);
            ask.is_finite() && bid.is_finite() ==> m.spread.value() >= 0 && (m.spread.value() == 0
                <==> ask.value() == bid.value())
        }),
{
    reveal(Double::spec_abs);
    assert(magnitude(0) == 0);
    let m = gamma_market_of(v, reading)->0;
    let ask = number_or(v, "bestAsk"@, m.sides.yes_price);
    let bid = number_or(v, "bestBid"@, m.sides.yes_price);
    if ask.is_finite() && bid.is_finite() {
        law_difference_has_a_sign(ask, bid);
    }
}

/// A server that is ahead leaves no more time than one that is not, and one that is behind no
/// less; a text that is no date leaves all the time there is.
pub proof fn law_server_ahead_leaves_less_time(
    end_date: Seq<char>,
    offset_secs: Double,
    reading: Option<(u64, u32)>,
)
    requires
        offset_secs.is_finite(),
        instant_of(end_date) matches Some(end) ==> end.1 < 1_000_000_000,
    ensures
        ({
            let here = time_remaining(end_date, Double::zero(), reading);
            let there = time_remaining(end_date, offset_secs, reading);
            &&& offset_secs.value() >= 0 ==> there <= here
            &&& offset_secs.value() <= 0 ==> there >= here
            &&& end_date.len() == 0 || instant_of(end_date) is None ==> there == i64::MAX
        }),
{
    let thousand = Double::from_u64(1000);
    lemma_pow2_pos(1074);
    assert(magnitude(0) == 0);
    law_integer_is_a_number(1000);
    law_product_has_no_value(Double::zero(), thousand);
    law_product_keeps_sign(offset_secs, thousand);
    reveal(Double::spec_to_i64);
    let (still, moved) = (Double::zero().mul(thousand), offset_secs.mul(thousand));
    lemma_sign_of_whole(still);
    lemma_sign_of_whole(moved);
    if let Some(end) = instant_of(end_date) {
        let now = nanos_of(reading);
        let (a, b) = (now + still.to_i64() * 1_000_000, now + moved.to_i64() * 1_000_000);
        if a <= b {
            law_seconds_run_down(end, a, b);
        }
        if b <= a {
            law_seconds_run_down(end, b, a);
        }
    }
}

/// An integer part has the sign of its number.
proof fn lemma_sign_of_whole(x: Double)
    ensures
        x.value() >= 0 ==> x.to_i64() >= 0,
        x.value() <= 0 ==> x.to_i64() <= 0,
{
    reveal(Double::spec_to_i64);
    lemma_pow2_pos(1074);
    assert(magnitude(0) == 0);
    let one = one_in_units();
    if x.size() == 0 {
        assert(0nat / one == 0) by {
            vstd::arithmetic::div_mod::lemma_div_basics(one as int);
        }
        if x.is_infinite() {
            lemma_magnitude_increases(0, x.pattern());
        }
    }
}

} // verus!
