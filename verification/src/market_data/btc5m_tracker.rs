//! Follows the five-minute BTC market from window to window.
use std::collections::VecDeque;

use vstd::prelude::*;

use crate::events::bus::{CycleEventType, FeedSource, MarketCycleEvent, MarketEvent};
use crate::json::{
    document_tree, json_document, json_quoted, parse_json, parse_string_list, quote, string_list,
    trees, views, Json, JsonView,
};
use crate::market_data::clock_sync::{
    law_time_lies_in_its_window, window_fits, window_start, window_ts, WINDOW_SECS,
};
use crate::market_data::normalizer::{
    is_control, is_ws_control_message, normalize_polymarket_ws_msg, update_of, NotJson,
    WsMarketUpdate, WsUpdateView,
};
use crate::market_data::price_validator::{
    elapsed_ms, PriceRejectReason, PriceSource, PriceUpdate, PriceValidator,
};
use crate::market_data::reconnect::{doubled, next_backoff, Pause};
use crate::market_data::state::{
    any_window_is_whole, apply_price_update, complement, law_prices_sum_to_one, price_in_range,
    window_is_whole, Btc5mMarket, LatencyState, MarketPhase, MarketState,
};
use crate::numeric::Double;
use crate::numeric::order::{
    law_difference_has_a_sign, law_exact_middle_is_met, law_middle_lies_between,
    law_ratio_is_above_zero, law_ratio_up_to_one, law_sums_of_shares_are_finite, lemma_half,
    lemma_one,
};
use crate::numeric::rounding::magnitude;
use crate::text::{
    decimal, decimal_text, law_digits_stand_for_their_number, lowercase, same_text, strip_slashes, to_lowercase, trim, trimmed,
    without_slashes,
};

verus! {

/// A market as the Gamma API describes it.
#[derive(Debug)]
pub struct GammaMarket {
    pub condition_id: String,
    pub slug: String,
    pub question: String,
    pub active: bool,
    pub closed: bool,
    /// A JSON array of token identifiers, as text.
    pub clob_token_ids: String,
    pub volume_24h: Double,
}

/// The contents of a Gamma market.
pub struct GammaView {
    pub condition_id: Seq<char>,
    pub slug: Seq<char>,
    pub question: Seq<char>,
    pub active: bool,
    pub closed: bool,
    pub clob_token_ids: Seq<char>,
    pub volume_24h: Double,
}

impl View for GammaMarket {
    type V = GammaView;

    open spec fn view(&self) -> GammaView {
        GammaView {
            condition_id: self.condition_id@,
            slug: self.slug@,
            question: self.question@,
            active: self.active,
            closed: self.closed,
            clob_token_ids: self.clob_token_ids@,
            volume_24h: self.volume_24h,
        }
    }
}

/// The volume in its field: a number, or a string that reads as one, or zero.
pub open spec fn volume_of(v: JsonView) -> Double {
    match v.number_or_decimal("volume24hrClob"@) {
        Some(x) => x,
        None => Double::zero(),
    }
}

/// A market, where a value has the fields of a market with values of their kind: an
/// object by their names, an array in their order.
pub open spec fn gamma_market_of(v: JsonView) -> Option<GammaView> {
    match v {
        JsonView::Array { items, .. } => listed_market(items),
        _ => named_market(v),
    }
}

/// A market whose fields stand in order: the identifier, the slug, the question, whether
/// it is active, whether it is closed, the token identifiers and the volume.
pub open spec fn listed_market(items: Seq<JsonView>) -> Option<GammaView> {
    if items.len() == 7 && items[0] is Str && items[1] is Str && items[2] is Str && items[3] is Bool
        && items[4] is Bool && items[5] is Str {
        Some(
            GammaView {
                condition_id: items[0]->Str_0,
                slug: items[1]->Str_0,
                question: items[2]->Str_0,
                active: items[3]->Bool_0,
                closed: items[4]->Bool_0,
                clob_token_ids: items[5]->Str_0,
                volume_24h: match items[6] {
                    JsonView::Number { double: Some(x), .. } => x,
                    JsonView::Str(s) => match Double::reading(s) {
                        Some(x) => x,
                        None => Double::zero(),
                    },
                    _ => Double::zero(),
                },
            },
        )
    } else {
        None
    }
}

/// A market object, where it has the fields of a market.
pub open spec fn named_market(v: JsonView) -> Option<GammaView> {
    let condition_id = v.text_field("conditionId"@);
    let slug = v.text_field("slug"@);
    let question = v.text_field("question"@);
    let active = v.field("active"@);
    let closed = v.field("closed"@);
    let clob_token_ids = v.text_field("clobTokenIds"@);
    if condition_id is Some && slug is Some && question is Some && clob_token_ids is Some
        && active is Some && active->0 is Bool && closed is Some && closed->0 is Bool {
        Some(
            GammaView {
                condition_id: condition_id->0,
                slug: slug->0,
                question: question->0,
                active: active->0->Bool_0,
                closed: closed->0->Bool_0,
                clob_token_ids: clob_token_ids->0,
                volume_24h: volume_of(v),
            },
        )
    } else {
        None
    }
}

fn read_listed_market(items: &Vec<Json>) -> (r: Option<GammaMarket>)
    ensures
        r is Some <==> listed_market(trees(items@)) is Some,
        r is Some ==> r->0@ == listed_market(trees(items@))->0,
{
    if items.len() != 7 {
        return None;
    }
    match (&items[0], &items[1], &items[2], &items[3], &items[4], &items[5]) {
        (
            Json::Str(condition_id),
            Json::Str(slug),
            Json::Str(question),
            Json::Bool(active),
            Json::Bool(closed),
            Json::Str(clob_token_ids),
        ) => Some(
            GammaMarket {
                condition_id: condition_id.clone(),
                slug: slug.clone(),
                question: question.clone(),
                active: *active,
                closed: *closed,
                clob_token_ids: clob_token_ids.clone(),
                volume_24h: match &items[6] {
                    Json::Number { double: Some(x), .. } => *x,
                    Json::Str(s) => match Double::parse(s.as_str()) {
                        Some(x) => x,
                        None => Double::zero(),
                    },
                    _ => Double::zero(),
                },
            },
        ),
        _ => None,
    }
}

fn bool_field(v: &Json, key: &str) -> (r: Option<bool>)
    ensures
        r is Some <==> v@.field(key@) is Some && v@.field(key@)->0 is Bool,
        r is Some ==> r->0 == v@.field(key@)->0->Bool_0,
{
    match v.get(key) {
        Some(Json::Bool(b)) => Some(*b),
        _ => None,
    }
}

/// Reads a market.
pub fn gamma_market(v: &Json) -> (r: Option<GammaMarket>)
    ensures
        r is Some <==> gamma_market_of(v@) is Some,
        r is Some ==> r->0@ == gamma_market_of(v@)->0,
{
    proof {
        v.lemma_parts();
    }
    if let Json::Array { items, .. } = v {
        return read_listed_market(items);
    }
    match (
        v.get_text("conditionId"),
        v.get_text("slug"),
        v.get_text("question"),
        bool_field(v, "active"),
        bool_field(v, "closed"),
        v.get_text("clobTokenIds"),
    ) {
        (
            Some(condition_id),
            Some(slug),
            Some(question),
            Some(active),
            Some(closed),
            Some(clob_token_ids),
        ) => Some(
            GammaMarket {
                condition_id: condition_id.to_owned(),
                slug: slug.to_owned(),
                question: question.to_owned(),
                active,
                closed,
                clob_token_ids: clob_token_ids.to_owned(),
                volume_24h: match v.get_number_or_decimal("volume24hrClob") {
                    Some(x) => x,
                    None => Double::zero(),
                },
            },
        ),
        _ => None,
    }
}

/// The tokens of the two outcomes, and the labels that they were found under.
#[derive(Debug)]
pub struct TokenMapping {
    pub yes_token_id: String,
    pub no_token_id: String,
    pub yes_outcome: String,
    pub no_outcome: String,
}

/// The contents of a token mapping.
pub struct MappingView {
    pub yes_token_id: Seq<char>,
    pub no_token_id: Seq<char>,
    pub yes_outcome: Seq<char>,
    pub no_outcome: Seq<char>,
}

impl View for TokenMapping {
    type V = MappingView;

    open spec fn view(&self) -> MappingView {
        MappingView {
            yes_token_id: self.yes_token_id@,
            no_token_id: self.no_token_id@,
            yes_outcome: self.yes_outcome@,
            no_outcome: self.no_outcome@,
        }
    }
}

/// Why the tokens of a market were not found.
#[derive(Clone, Copy, Debug, PartialEq, Eq, Structural)]
pub enum TokenError {
    MissingTokenId,
    BadTokenIds,
    TooFewTokenIds,
}

/// A label in lower case that names the outcome YES.
pub open spec fn means_yes(label: Seq<char>) -> bool {
    label == "yes"@ || label == "up"@ || label == "higher"@ || label == "above"@
}

/// A label in lower case that names the outcome NO.
pub open spec fn means_no(label: Seq<char>) -> bool {
    label == "no"@ || label == "down"@ || label == "lower"@ || label == "below"@
}

/// The outcome that a label in lower case names.
pub fn outcome_named(label: &str) -> (r: Option<bool>)
    ensures
        r == if means_yes(label@) {
            Some(true)
        } else if means_no(label@) {
            Some(false)
        } else {
            None
        },
{
    if same_text(label, "yes") || same_text(label, "up") || same_text(label, "higher") || same_text(
        label,
        "above",
    ) {
        Some(true)
    } else if same_text(label, "no") || same_text(label, "down") || same_text(label, "lower")
        || same_text(label, "below") {
        Some(false)
    } else {
        None
    }
}

/// The identifier of a token object.
pub open spec fn token_id_of(token: JsonView) -> Option<Seq<char>> {
    match token.text_field("token_id"@) {
        Some(id) => Some(id),
        None => token.text_field("tokenId"@),
    }
}

/// The label of a token object, in lower case.
pub open spec fn label_of(token: JsonView) -> Seq<char> {
    match token.text_field("outcome"@) {
        Some(s) => lowercase(s),
        None => lowercase(""@),
    }
}

/// The tokens found so far: the identifier and label of each outcome.
pub struct FoundTokens {
    pub yes: Option<(Seq<char>, Seq<char>)>,
    pub no: Option<(Seq<char>, Seq<char>)>,
}

/// The last token of each outcome.
pub open spec fn tokens_by_label(tokens: Seq<JsonView>) -> FoundTokens
    decreases tokens.len(),
{
    if tokens.len() == 0 {
        FoundTokens { yes: None, no: None }
    } else {
        let before = tokens_by_label(tokens.drop_last());
        let label = label_of(tokens.last());
        let id = token_id_of(tokens.last())->0;
        if means_yes(label) {
            FoundTokens { yes: Some((id, label)), ..before }
        } else if means_no(label) {
            FoundTokens { no: Some((id, label)), ..before }
        } else {
            before
        }
    }
}

/// Every token has an identifier.
pub open spec fn all_identified(tokens: Seq<JsonView>) -> bool {
    forall|i: int| 0 <= i < tokens.len() ==> token_id_of(#[trigger] tokens[i]) is Some
}

/// The strings among the elements of an array.
pub open spec fn string_elements(items: Seq<JsonView>) -> Seq<Seq<char>>
    decreases items.len(),
{
    if items.len() == 0 {
        Seq::empty()
    } else {
        let before = string_elements(items.drop_last());
        match items.last() {
            JsonView::Str(s) => before.push(s),
            _ => before,
        }
    }
}

/// The labels of a market: those in a string that holds an array of strings, or those
/// in an array, or yes and no.
pub open spec fn outcome_labels(v: JsonView) -> Seq<Seq<char>> {
    let listed = match v.text_field("outcomes"@) {
        Some(s) => string_list(json_document(s)),
        None => None,
    };
    match listed {
        Some(labels) => labels,
        None => match v.items_field("outcomes"@) {
            Some(items) => string_elements(items),
            None => seq!["Yes"@, "No"@],
        },
    }
}

/// The tokens by position: the first two are yes and no, unless labels at the same
/// places say otherwise.
pub open spec fn tokens_by_place(ids: Seq<Seq<char>>, labels: Seq<Seq<char>>) -> MappingView
    decreases labels.len(),
{
    if labels.len() == 0 {
        MappingView {
            yes_token_id: ids[0],
            no_token_id: ids[1],
            yes_outcome: "yes"@,
            no_outcome: "no"@,
        }
    } else {
        let before = tokens_by_place(ids, labels.drop_last());
        let i = labels.len() - 1;
        let label = lowercase(labels.last());
        if i >= ids.len() {
            before
        } else if means_yes(label) {
            MappingView { yes_token_id: ids[i], yes_outcome: label, ..before }
        } else if means_no(label) {
            MappingView { no_token_id: ids[i], no_outcome: label, ..before }
        } else {
            before
        }
    }
}

/// The tokens of a market: by the labels of its token objects, where those name both
/// outcomes, or else by the list of identifiers.
pub open spec fn mapping_of(v: JsonView, clob_token_ids: Seq<char>) -> Result<MappingView, TokenError> {
    let tokens = v.items_field("tokens"@);
    let found = tokens_by_label(tokens->0);
    let ids = string_list(json_document(clob_token_ids));
    if tokens is Some && !all_identified(tokens->0) {
        Err(TokenError::MissingTokenId)
    } else if tokens is Some && found.yes is Some && found.no is Some {
        Ok(
            MappingView {
                yes_token_id: (found.yes->0).0,
                no_token_id: (found.no->0).0,
                yes_outcome: (found.yes->0).1,
                no_outcome: (found.no->0).1,
            },
        )
    } else if ids is None {
        Err(TokenError::BadTokenIds)
    } else if ids->0.len() < 2 {
        Err(TokenError::TooFewTokenIds)
    } else {
        Ok(tokens_by_place(ids->0, outcome_labels(v)))
    }
}

fn get_token_id(token: &Json) -> (r: Option<&str>)
    ensures
        r is Some <==> token_id_of(token@) is Some,
        r is Some ==> r->0@ == token_id_of(token@)->0,
{
    match token.get_text("token_id") {
        Some(id) => Some(id),
        None => token.get_text("tokenId"),
    }
}

fn get_label(token: &Json) -> (r: String)
    ensures
        r@ == label_of(token@),
{
    match token.get_text("outcome") {
        Some(s) => to_lowercase(s),
        None => to_lowercase(""),
    }
}

fn find_by_label(tokens: &Vec<Json>) -> (r: Result<Option<TokenMapping>, TokenError>)
    ensures
        !all_identified(trees(tokens@)) ==> r == Err::<Option<TokenMapping>, TokenError>(
            TokenError::MissingTokenId,
        ),
        all_identified(trees(tokens@)) ==> {
            let found = tokens_by_label(trees(tokens@));
            &&& r is Ok
            &&& r->Ok_0 is Some <==> found.yes is Some && found.no is Some
            &&& r->Ok_0 is Some ==> r->Ok_0->0@ == (MappingView {
                yes_token_id: (found.yes->0).0,
                no_token_id: (found.no->0).0,
                yes_outcome: (found.yes->0).1,
                no_outcome: (found.no->0).1,
            })
        },
{
    let ghost all = trees(tokens@);
    let mut yes: Option<(String, String)> = None;
    let mut no: Option<(String, String)> = None;
    let mut i: usize = 0;
    while i < tokens.len()
        invariant
            i <= tokens@.len(),
            all == trees(tokens@),
            forall|j: int| 0 <= j < i ==> token_id_of(#[trigger] all[j]) is Some,
            ({
                let found = tokens_by_label(all.take(i as int));
                &&& yes is Some <==> found.yes is Some
                &&& no is Some <==> found.no is Some
                &&& yes is Some ==> (yes->0).0@ == (found.yes->0).0 && (yes->0).1@ == (found.yes->0).1
                &&& no is Some ==> (no->0).0@ == (found.no->0).0 && (no->0).1@ == (found.no->0).1
            }),
        decreases tokens@.len() - i,
    {
        assert(all.take(i + 1).drop_last() =~= all.take(i as int));
        assert(all.take(i + 1).last() == tokens@[i as int]@);
        let label: String = get_label(&tokens[i]);
        let id: String = match get_token_id(&tokens[i]) {
            Some(id) => id.to_owned(),
            None => {
                assert(token_id_of(all[i as int]) is None);
                return Err(TokenError::MissingTokenId);
            },
        };
        match outcome_named(label.as_str()) {
            Some(true) => {
                yes = Some((id, label));
            },
            Some(false) => {
                no = Some((id, label));
            },
            None => {},
        }
        i = i + 1;
    }
    assert(all.take(i as int) =~= all);
    match (yes, no) {
        (Some((yes_token_id, yes_outcome)), Some((no_token_id, no_outcome))) => Ok(
            Some(TokenMapping { yes_token_id, no_token_id, yes_outcome, no_outcome }),
        ),
        _ => Ok(None),
    }
}

fn pick_strings(items: &Vec<Json>) -> (r: Vec<String>)
    ensures
        views(r@) == string_elements(trees(items@)),
{
    let ghost all = trees(items@);
    let mut out: Vec<String> = Vec::new();
    let mut i: usize = 0;
    assert(views(out@) =~= Seq::empty());
    while i < items.len()
        invariant
            i <= items@.len(),
            all == trees(items@),
            views(out@) == string_elements(all.take(i as int)),
        decreases items@.len() - i,
    {
        assert(all.take(i + 1).drop_last() =~= all.take(i as int));
        assert(all.take(i + 1).last() == items@[i as int]@);
        let ghost before = out@;
        if let Json::Str(s) = &items[i] {
            out.push(s.clone());
            assert(views(out@) =~= views(before).push(s@));
        }
        i = i + 1;
    }
    assert(all.take(i as int) =~= all);
    out
}

fn get_labels(v: &Json) -> (r: Vec<String>)
    ensures
        views(r@) == outcome_labels(v@),
{
    if let Some(s) = v.get_text("outcomes") {
        if let Some(labels) = parse_string_list(s) {
            return labels;
        }
    }
    match v.get_items("outcomes") {
        Some(items) => pick_strings(items),
        None => {
            let mut labels: Vec<String> = Vec::new();
            labels.push("Yes".to_owned());
            labels.push("No".to_owned());
            assert(views(labels@) =~= seq!["Yes"@, "No"@]);
            labels
        },
    }
}

fn place_tokens(ids: &Vec<String>, labels: &Vec<String>) -> (r: TokenMapping)
    requires
        ids@.len() >= 2,
    ensures
        r@ == tokens_by_place(views(ids@), views(labels@)),
{
    let mut r: TokenMapping = TokenMapping {
        yes_token_id: ids[0].clone(),
        no_token_id: ids[1].clone(),
        yes_outcome: "yes".to_owned(),
        no_outcome: "no".to_owned(),
    };
    let ghost all = views(labels@);
    assert(all.take(0) =~= Seq::empty());
    let mut i: usize = 0;
    while i < labels.len()
        invariant
            i <= labels@.len(),
            all == views(labels@),
            r@ == tokens_by_place(views(ids@), all.take(i as int)),
        decreases labels@.len() - i,
    {
        assert(all.take(i + 1).drop_last() =~= all.take(i as int));
        assert(all.take(i + 1).last() == labels@[i as int]@);
        let label: String = to_lowercase(labels[i].as_str());
        if i < ids.len() {
            match outcome_named(label.as_str()) {
                Some(true) => {
                    r.yes_token_id = ids[i].clone();
                    r.yes_outcome = label;
                },
                Some(false) => {
                    r.no_token_id = ids[i].clone();
                    r.no_outcome = label;
                },
                None => {},
            }
        }
        i = i + 1;
    }
    assert(all.take(i as int) =~= all);
    r
}

/// Finds the tokens of the two outcomes of a market.
pub fn extract_token_ids(market_json: &Json, clob_token_ids_raw: &str) -> (r: Result<
    TokenMapping,
    TokenError,
>)
    ensures
        match mapping_of(market_json@, clob_token_ids_raw@) {
            Ok(mapping) => r is Ok && r->Ok_0@ == mapping,
            Err(e) => r is Err && r->Err_0 == e,
        },
{
    if let Some(tokens) = market_json.get_items("tokens") {
        match find_by_label(tokens) {
            Err(e) => return Err(e),
            Ok(Some(mapping)) => return Ok(mapping),
            Ok(None) => {},
        }
    }
    let ids: Vec<String> = match parse_string_list(clob_token_ids_raw) {
        Some(ids) => ids,
        None => return Err(TokenError::BadTokenIds),
    };
    if ids.len() < 2 {
        return Err(TokenError::TooFewTokenIds);
    }
    let labels: Vec<String> = get_labels(market_json);
    Ok(place_tokens(&ids, &labels))
}

/// What a reply to the request for a market holds.
#[derive(Debug)]
pub enum MarketReply {
    /// No market yet.
    Absent,
    /// A market that lacks fields.
    Undecodable,
    /// A market without tokens.
    NoTokens(TokenError),
    Found { market: GammaMarket, mapping: TokenMapping },
}

/// The first market of a reply is taken.
pub open spec fn reply_holds(document: Option<JsonView>, r: MarketReply) -> bool {
    match document {
        Some(JsonView::Array { items, .. }) => if items.len() == 0 {
            r is Absent
        } else {
            let v = items[0];
            match gamma_market_of(v) {
                None => r is Undecodable,
                Some(market) => match mapping_of(v, market.clob_token_ids) {
                    Err(e) => r == MarketReply::NoTokens(e),
                    Ok(mapping) => r is Found && r->market@ == market && r->mapping@ == mapping,
                },
            }
        },
        _ => r is Absent,
    }
}

/// Reads a parsed reply to the request for a market.
pub fn market_reply(document: &Option<Json>) -> (r: MarketReply)
    ensures
        reply_holds(document_tree(*document), r),
{
    proof {
        if let Some(v) = document {
            v.lemma_parts();
        }
    }
    match document {
        Some(Json::Array { items, .. }) => {
            if items.len() == 0 {
                return MarketReply::Absent;
            }
            let market: GammaMarket = match gamma_market(&items[0]) {
                Some(m) => m,
                None => return MarketReply::Undecodable,
            };
            match extract_token_ids(&items[0], market.clob_token_ids.as_str()) {
                Ok(mapping) => MarketReply::Found { market, mapping },
                Err(e) => MarketReply::NoTokens(e),
            }
        },
        _ => MarketReply::Absent,
    }
}

/// Reads a reply to the request for a market.
pub fn read_market_reply(body: &str) -> (r: MarketReply)
    ensures
        reply_holds(json_document(body@), r),
{
    let document: Option<Json> = parse_json(body);
    market_reply(&document)
}

/// A search that is given up after so many attempts.
#[derive(Clone, Copy, Debug)]
pub struct MarketSearch {
    pub attempts: u32,
    pub tried: u32,
}

impl MarketSearch {
    pub fn new(attempts: u32) -> (r: Self)
        ensures
            r == (MarketSearch { attempts, tried: 0 }),
    {
        MarketSearch { attempts, tried: 0 }
    }

    /// The number of the next attempt, counted from one; nothing where the search is
    /// given up.
    pub fn next_attempt(&mut self) -> (r: Option<u32>)
        ensures
            old(self).tried < old(self).attempts ==> r == Some((old(self).tried + 1) as u32)
                && *final(self) == (MarketSearch {
                tried: (old(self).tried + 1) as u32,
                ..*old(self)
            }),
            old(self).tried >= old(self).attempts ==> r is None && *final(self) == *old(self),
    {
        if self.tried < self.attempts {
            self.tried = self.tried + 1;
            Some(self.tried)
        } else {
            None
        }
    }
}

/// The address of a market's description.
pub fn market_url(gamma_api: &str, slug: &str) -> (r: String)
    ensures
        r@ == without_slashes(gamma_api@) + "/markets?slug="@ + slug@,
{
    strip_slashes(gamma_api).concat("/markets?slug=").concat(slug)
}

/// The address of a token's midpoint price.
pub fn midpoint_url(clob_api: &str, token_id: &str) -> (r: String)
    ensures
        r@ == without_slashes(clob_api@) + "/midpoint?token_id="@ + token_id@,
{
    strip_slashes(clob_api).concat("/midpoint?token_id=").concat(token_id)
}

/// The address of a token's order book.
pub fn book_url(clob_api: &str, token_id: &str) -> (r: String)
    ensures
        r@ == without_slashes(clob_api@) + "/book?token_id="@ + token_id@,
{
    strip_slashes(clob_api).concat("/book?token_id=").concat(token_id)
}

/// Why a midpoint was not read.
#[derive(Clone, Copy, Debug, PartialEq, Eq, Structural)]
pub enum MidpointError {
    NotJson,
    MissingMid,
    BadMid,
}

/// The midpoint in a reply: decimal text under `mid`.
pub open spec fn midpoint_of(document: Option<JsonView>) -> Result<Double, MidpointError> {
    match document {
        None => Err(MidpointError::NotJson),
        Some(v) => if v.text_field("mid"@) is None {
            Err(MidpointError::MissingMid)
        } else {
            match v.decimal_field("mid"@) {
                Some(x) => Ok(x),
                None => Err(MidpointError::BadMid),
            }
        },
    }
}

/// Reads the midpoint in a parsed reply.
pub fn midpoint(document: &Option<Json>) -> (r: Result<Double, MidpointError>)
    ensures
        r == midpoint_of(document_tree(*document)),
{
    match document {
        None => Err(MidpointError::NotJson),
        Some(v) => match v.get_text("mid") {
            None => Err(MidpointError::MissingMid),
            Some(s) => match Double::parse(s) {
                Some(x) => Ok(x),
                None => Err(MidpointError::BadMid),
            },
        },
    }
}

/// Reads the midpoint in a reply.
pub fn read_midpoint(body: &str) -> (r: Result<Double, MidpointError>)
    ensures
        r == midpoint_of(json_document(body@)),
{
    let document: Option<Json> = parse_json(body);
    midpoint(&document)
}

/// The first price of a side of a book; zero where there is none.
pub open spec fn first_price(levels: Seq<Seq<char>>) -> Double {
    if levels.len() > 0 && Double::reading(levels[0]) is Some {
        Double::reading(levels[0])->0
    } else {
        Double::zero()
    }
}

fn get_first_price(levels: &Vec<String>) -> (r: Double)
    ensures
        r == first_price(views(levels@)),
{
    if levels.len() > 0 {
        match Double::parse(levels[0].as_str()) {
            Some(x) => x,
            None => Double::zero(),
        }
    } else {
        Double::zero()
    }
}

/// The price and spread between a bid and an ask: their middle, or the one of them that
/// is there.
pub open spec fn quote_between(bid: Double, ask: Double) -> (Double, Double) {
    (
        if bid.gt(Double::zero()) && ask.gt(Double::zero()) {
            bid.add(ask).div(Double::from_u64(2))
        } else {
            bid.max(ask)
        },
        ask.sub(bid).abs(),
    )
}

/// The price and spread of a book whose levels are given by their prices: the middle of
/// the first bid and ask, or the one of them that is there.
pub fn book_quote(bids: &Vec<String>, asks: &Vec<String>) -> (r: (Double, Double))
    ensures
        r == quote_between(first_price(views(bids@)), first_price(views(asks@))),
{
    let best_bid: Double = get_first_price(bids);
    let best_ask: Double = get_first_price(asks);
    let mid: Double = if best_bid.gt(Double::zero()) && best_ask.gt(Double::zero()) {
        best_bid.add(best_ask).div(Double::from_u64(2))
    } else {
        best_bid.max(best_ask)
    };
    (mid, best_ask.sub(best_bid).abs())
}

/// The prices of the levels of an order book, best first.
#[derive(Debug)]
pub struct ClobBook {
    pub bids: Vec<String>,
    pub asks: Vec<String>,
}

/// What a second midpoint gives, or else a book.
pub open spec fn second_quote(midpoint: Option<Double>, book: Option<ClobBook>) -> Option<
    (Double, Double),
> {
    match midpoint {
        Some(p) => Some((p, Double::zero())),
        None => match book {
            Some(b) => Some(
                quote_between(first_price(views(b.bids@)), first_price(views(b.asks@))),
            ),
            None => None,
        },
    }
}

/// What a midpoint gives a market to start with, or else a book, or else neither.
pub open spec fn starting_quote(midpoint: Option<Double>, book: Option<(Double, Double)>) -> (
    Double,
    Double,
) {
    match midpoint {
        Some(p) => (p, Double::ratio(1, 100)),
        None => match book {
            Some(q) => q,
            None => (Double::ratio(5, 10), Double::ratio(1, 100)),
        },
    }
}

/// The price and spread from a second midpoint, which comes with a spread of zero, or else
/// from a book; nothing where there is neither.
pub fn fallback_quote(midpoint: Option<Double>, book: &Option<ClobBook>) -> (r: Option<
    (Double, Double),
>)
    ensures
        r == second_quote(midpoint, *book),
{
    match midpoint {
        Some(p) => Some((p, Double::zero())),
        None => match book {
            Some(b) => Some(book_quote(&b.bids, &b.asks)),
            None => None,
        },
    }
}

/// The price and spread that a market starts with: a midpoint with a spread of a cent,
/// or else what a book gives, or else one half.
pub fn initial_quote(midpoint: Option<Double>, book: Option<(Double, Double)>) -> (r: (
    Double,
    Double,
))
    ensures
        r == starting_quote(midpoint, book),
{
    match midpoint {
        Some(p) => (p, Double::ratio(1, 100)),
        None => match book {
            Some(q) => q,
            None => (Double::ratio(5, 10), Double::ratio(1, 100)),
        },
    }
}

/// The name of the market of a window.
pub open spec fn slug_of(window_ts: u64) -> Seq<char> {
    "btc-updown-5m-"@ + decimal(window_ts as nat)
}

/// Names the market of a window.
pub fn market_slug(window_ts: u64) -> (r: String)
    ensures
        r@ == slug_of(window_ts),
{
    "btc-updown-5m-".to_owned().concat(decimal_text(window_ts).as_str())
}

/// The request for a market's updates on the socket.
pub fn market_subscription(condition_id: &str) -> (r: String)
    ensures
        r@ == "{\"auth\":{},\"markets\":["@ + json_quoted(condition_id@)
            + "],\"type\":\"subscribe\"}"@,
{
    "{\"auth\":{},\"markets\":[".to_owned().concat(quote(condition_id).as_str()).concat(
        "],\"type\":\"subscribe\"}",
    )
}

/// The request for the updates of two tokens on the socket.
pub fn token_subscription(yes_token_id: &str, no_token_id: &str) -> (r: String)
    ensures
        r@ == "{\"assets_ids\":["@ + json_quoted(yes_token_id@) + ","@ + json_quoted(no_token_id@)
            + "],\"auth\":{},\"type\":\"subscribe\"}"@,
{
    "{\"assets_ids\":[".to_owned().concat(quote(yes_token_id).as_str()).concat(",").concat(
        quote(no_token_id).as_str(),
    ).concat("],\"auth\":{},\"type\":\"subscribe\"}")
}

/// The longest delay between two connections of the market's socket, in seconds.
pub const MAX_BACKOFF_SECS: u64 = 30;

/// What follows when the market's socket is done, in whatever way: the delay doubles, and
/// nothing is announced.
pub fn after_socket(backoff_secs: u64) -> (r: Pause)
    requires
        backoff_secs * 2 <= u64::MAX,
    ensures
        r == (Pause {
            delay_secs: backoff_secs,
            backoff_secs: doubled(backoff_secs, MAX_BACKOFF_SECS),
            announced: false,
        }),
{
    Pause {
        delay_secs: backoff_secs,
        backoff_secs: next_backoff(backoff_secs, MAX_BACKOFF_SECS),
        announced: false,
    }
}

/// The market is the expected one but for the text of its source.
pub open spec fn is_from(m: Btc5mMarket, expected: Btc5mMarket, source: Seq<char>) -> bool {
    m == (Btc5mMarket { price_source: m.price_source, ..expected }) && m.price_source@ == source
}

/// A market that has just been described, before it has prices.
pub open spec fn described(
    r: Btc5mMarket,
    market: GammaMarket,
    mapping: TokenMapping,
    window_ts: u64,
    time_remaining_secs: i64,
    now_ms: u64,
) -> bool {
    &&& r.price_source@ == "RestSnapshot"@
    &&& r == (Btc5mMarket {
        slug: market.slug,
        condition_id: market.condition_id,
        yes_token_id: mapping.yes_token_id,
        no_token_id: mapping.no_token_id,
        question: market.question,
        window_start_unix: window_ts,
        window_end_unix: (window_ts + WINDOW_SECS) as u64,
        phase: MarketPhase::PreOpen,
        yes_price: Double::ratio(5, 10),
        no_price: Double::ratio(5, 10),
        spread: Double::ratio(1, 100),
        volume_24h: market.volume_24h,
        time_remaining_secs,
        last_fetched_ms: now_ms,
        price_source: r.price_source,
    })
}

/// Makes the market of a window from its description.
pub fn new_market(
    market: GammaMarket,
    mapping: TokenMapping,
    window_ts: u64,
    time_remaining_secs: i64,
    now_ms: u64,
) -> (r: Btc5mMarket)
    requires
        window_ts + WINDOW_SECS <= u64::MAX,
    ensures
        described(r, market, mapping, window_ts, time_remaining_secs, now_ms),
        window_ts % WINDOW_SECS == 0 ==> window_is_whole(r),
{
    Btc5mMarket {
        slug: market.slug,
        condition_id: market.condition_id,
        yes_token_id: mapping.yes_token_id,
        no_token_id: mapping.no_token_id,
        question: market.question,
        window_start_unix: window_ts,
        window_end_unix: window_ts + WINDOW_SECS,
        phase: MarketPhase::PreOpen,
        yes_price: Double::ratio(5, 10),
        no_price: Double::ratio(5, 10),
        spread: Double::ratio(1, 100),
        volume_24h: market.volume_24h,
        time_remaining_secs,
        last_fetched_ms: now_ms,
        price_source: "RestSnapshot".to_owned(),
    }
}

/// What the tracker keeps from turn to turn.
pub struct Btc5mTracker {
    pub current_window_ts: u64,
    pub active_market: Option<Btc5mMarket>,
    pub final_window_entered_emitted: bool,
    /// When prices were last polled, in nanoseconds of a steady clock.
    pub last_rest_fetch: u64,
    pub critical_alert_sent: bool,
}

/// The market that an event tells of, if any, has a whole window.
pub open spec fn event_is_whole(event: MarketEvent) -> bool {
    match event {
        MarketEvent::PolymarketUpdate(m) => window_is_whole(m),
        MarketEvent::MarketCycleEvent(e) => window_is_whole(e.market),
        _ => true,
    }
}

/// The markets that events tell of have whole windows.
pub open spec fn events_are_whole(events: Seq<MarketEvent>) -> bool {
    forall|i: int| 0 <= i < events.len() ==> event_is_whole(#[trigger] events[i])
}

/// The start of a new window.
pub struct Rollover {
    pub events: Vec<MarketEvent>,
    /// The name of the window's market.
    pub slug: String,
    /// The market, where it has been fetched ahead.
    pub prefetched: Option<Btc5mMarket>,
}

/// A market that was fetched ahead, where it is the one of a name.
pub open spec fn kept_ahead(next: Option<Btc5mMarket>, slug: Seq<char>) -> Option<Btc5mMarket> {
    match next {
        Some(m) => if m.slug@ == slug {
            Some(m)
        } else {
            None
        },
        None => None,
    }
}

/// The phase that a market is activated in.
pub open spec fn phase_at(secs_left: u64, final_window_secs: u64) -> MarketPhase {
    if secs_left <= final_window_secs {
        MarketPhase::Final
    } else {
        MarketPhase::Active
    }
}

/// A market with a price of its YES token, where that is in range.
pub open spec fn with_yes_price(m: Btc5mMarket, price: Double, now_ms: u64) -> Btc5mMarket {
    if price_in_range(price) {
        Btc5mMarket {
            yes_price: price,
            no_price: complement(price),
            last_fetched_ms: now_ms,
            ..m
        }
    } else {
        m
    }
}

/// A market as it is activated.
pub open spec fn activated(
    m: Btc5mMarket,
    quote: (Double, Double),
    secs_left: u64,
    final_window_secs: u64,
    now_ms: u64,
) -> Btc5mMarket {
    Btc5mMarket {
        spread: quote.1,
        time_remaining_secs: secs_left as i64,
        phase: phase_at(secs_left, final_window_secs),
        ..with_yes_price(m, quote.0, now_ms)
    }
}

/// The active market after a turn with so many seconds left.
pub open spec fn counted_down(
    m: Btc5mMarket,
    secs_left: u64,
    final_window_secs: u64,
) -> Btc5mMarket {
    Btc5mMarket {
        time_remaining_secs: secs_left as i64,
        phase: if secs_left <= final_window_secs && m.phase == MarketPhase::Active {
            MarketPhase::Final
        } else {
            m.phase
        },
        ..m
    }
}

/// What is known of the feed after a check at a time: silence for more than ten seconds stops
/// its rate and, below the minimum, turns the fallback on; a rate of a half turns it off.
pub open spec fn checked_latency(
    latency: LatencyState,
    ws_min_tick_rate: Double,
    now_ms: u64,
) -> LatencyState {
    let silent_ms = elapsed_ms(now_ms, latency.polymarket_last_msg_ms);
    let rate = if silent_ms > 10_000 {
        Double::zero()
    } else {
        latency.polymarket_tick_rate
    };
    let before = latency.fallback_mode;
    LatencyState {
        polymarket_tick_rate: rate,
        fallback_mode: if rate.lt(ws_min_tick_rate) && !before && silent_ms > 10_000 {
            true
        } else if rate.ge(Double::ratio(5, 10)) && before {
            false
        } else {
            before
        },
        ..latency
    }
}

/// Whole seconds since the feed was heard.
pub open spec fn down_secs_of(latency: LatencyState, now_ms: u64) -> u64 {
    elapsed_ms(now_ms, latency.polymarket_last_msg_ms) / 1000
}

/// An outage is to be told of.
pub open spec fn outage_is_told(latency: LatencyState, told: bool, now_ms: u64) -> bool {
    down_secs_of(latency, now_ms) > 60 && latency.fallback_mode && !told
}

/// An outage has been told of after a check.
pub open spec fn alert_stands(latency: LatencyState, told: bool, now_ms: u64) -> bool {
    if outage_is_told(latency, told, now_ms) {
        true
    } else if down_secs_of(latency, now_ms) < 15 {
        false
    } else {
        told
    }
}

/// A poll of the price of the active market.
#[derive(Debug)]
pub struct RestPoll {
    pub yes_token_id: String,
    pub slug: String,
}

impl Btc5mTracker {
    /// The current window, and that of the active market, are whole.
    pub open spec fn windows_are_whole(&self) -> bool {
        self.current_window_ts % WINDOW_SECS == 0 && any_window_is_whole(self.active_market)
    }

    pub fn new(server_now: Double, now_nanos: u64) -> (r: Self)
        ensures
            r.windows_are_whole(),
            r.current_window_ts == window_start(server_now),
            r.active_market is None,
            !r.final_window_entered_emitted,
            r.last_rest_fetch == now_nanos,
            !r.critical_alert_sent,
    {
        Btc5mTracker {
            current_window_ts: window_ts(server_now),
            active_market: None,
            final_window_entered_emitted: false,
            last_rest_fetch: now_nanos,
            critical_alert_sent: false,
        }
    }

    /// There is no market for the window of a server time.
    pub open spec fn lacks_market(&self, server_now: Double) -> bool {
        match self.active_market {
            Some(m) => window_start(server_now) != m.window_start_unix,
            None => true,
        }
    }

    /// Whether there is no market for the window of a server time.
    pub fn needs_market(&self, server_now: Double) -> (r: bool)
        ensures
            r == self.lacks_market(server_now),
    {
        match &self.active_market {
            Some(m) => window_ts(server_now) != m.window_start_unix,
            None => true,
        }
    }

    /// Settles the active market and turns to the window of a server time. A market that
    /// was fetched ahead is taken out of the state, and used if it is the right one.
    pub fn begin_rollover(&mut self, state: &mut MarketState, server_now: Double) -> (r: Rollover)
        ensures
            *final(self) == (Btc5mTracker {
                current_window_ts: window_start(server_now),
                active_market: None,
                ..*old(self)
            }),
            *final(state) == (MarketState { next_market: None, ..*old(state) }),
            r.slug@ == slug_of(window_start(server_now)),
            r.prefetched == kept_ahead(old(state).next_market, r.slug@),
            match old(self).active_market {
                None => r.events@.len() == 0,
                Some(m) => {
                    let settled = Btc5mMarket { phase: MarketPhase::Settled, ..m };
                    r.events@ == seq![
                        MarketEvent::PolymarketUpdate(settled),
                        MarketEvent::MarketCycleEvent(
                            MarketCycleEvent {
                                event_type: CycleEventType::MarketSettled,
                                market: settled,
                                server_time_unix: server_now,
                            },
                        ),
                    ]
                },
            },
            final(self).windows_are_whole(),
            old(state).windows_are_whole() ==> final(state).windows_are_whole()
                && any_window_is_whole(r.prefetched),
            old(self).windows_are_whole() ==> events_are_whole(r.events@),
    {
        let mut events: Vec<MarketEvent> = Vec::new();
        match self.active_market.take() {
            Some(active) => {
                let mut m: Btc5mMarket = active;
                m.phase = MarketPhase::Settled;
                events.push(MarketEvent::PolymarketUpdate(m.clone()));
                events.push(
                    MarketEvent::MarketCycleEvent(
                        MarketCycleEvent {
                            event_type: CycleEventType::MarketSettled,
                            market: m,
                            server_time_unix: server_now,
                        },
                    ),
                );
            },
            None => {},
        }
        self.current_window_ts = window_ts(server_now);
        let slug: String = market_slug(self.current_window_ts);
        let prefetched: Option<Btc5mMarket> = match state.next_market.take() {
            Some(m) => if same_text(m.slug.as_str(), slug.as_str()) {
                Some(m)
            } else {
                None
            },
            None => None,
        };
        Rollover { events, slug, prefetched }
    }

    /// Makes a market the active one, with its first price and the time left to it.
    pub fn activate(
        &mut self,
        state: &mut MarketState,
        validator: &mut PriceValidator,
        market: Btc5mMarket,
        quote: (Double, Double),
        latency_ms: u64,
        secs_left: u64,
        final_window_secs: u64,
        server_now: Double,
        now_ms: u64,
        now_nanos: u64,
    ) -> (events: Vec<MarketEvent>)
        requires
            secs_left <= WINDOW_SECS,
        ensures
            final(self).active_market is Some,
            is_from(
                final(self).active_market->0,
                activated(market, quote, secs_left, final_window_secs, now_ms),
                "RestSnapshot"@,
            ),
            *final(self) == (Btc5mTracker {
                active_market: final(self).active_market,
                final_window_entered_emitted: false,
                last_rest_fetch: now_nanos,
                ..*old(self)
            }),
            *final(state) == (MarketState {
                btc5m_market: final(self).active_market,
                latency: LatencyState { polymarket_ms: latency_ms, ..old(state).latency },
                last_updated_ms: now_ms,
                ..*old(state)
            }),
            final(validator).last_valid_price is None,
            final(validator).last_valid_at_ms == 0,
            events@ == seq![
                MarketEvent::LatencyAlert { source: FeedSource::Polymarket, latency_ms },
                MarketEvent::PolymarketUpdate(final(self).active_market->0),
                MarketEvent::MarketCycleEvent(
                    MarketCycleEvent {
                        event_type: CycleEventType::MarketActivated,
                        market: final(self).active_market->0,
                        server_time_unix: server_now,
                    },
                ),
            ],
            window_is_whole(market) ==> {
                &&& old(self).windows_are_whole() ==> final(self).windows_are_whole()
                &&& old(state).windows_are_whole() ==> final(state).windows_are_whole()
                &&& events_are_whole(events@)
            },
    {
        let mut m: Btc5mMarket = market;
        let yes_id: String = m.yes_token_id.clone();
        let _ = apply_price_update(&mut m, yes_id.as_str(), quote.0, now_ms);
        m.spread = quote.1;
        m.price_source = "RestSnapshot".to_owned();
        m.time_remaining_secs = secs_left as i64;
        m.phase =
        if secs_left <= final_window_secs {
            MarketPhase::Final
        } else {
            MarketPhase::Active
        };
        state.latency.polymarket_ms = latency_ms;
        state.btc5m_market = Some(m.clone());
        state.last_updated_ms = now_ms;
        *validator = PriceValidator::new();
        self.active_market = Some(m.clone());
        self.last_rest_fetch = now_nanos;
        self.final_window_entered_emitted = false;
        let mut events: Vec<MarketEvent> = Vec::new();
        events.push(
            MarketEvent::LatencyAlert { source: FeedSource::Polymarket, latency_ms },
        );
        events.push(MarketEvent::PolymarketUpdate(m.clone()));
        events.push(
            MarketEvent::MarketCycleEvent(
                MarketCycleEvent {
                    event_type: CycleEventType::MarketActivated,
                    market: m,
                    server_time_unix: server_now,
                },
            ),
        );
        events
    }

    /// What a turn does to the active market and the one that is shown.
    pub open spec fn counts_down(
        &self,
        after: &Btc5mTracker,
        state: (MarketState, MarketState),
        secs_left: u64,
        final_window_secs: u64,
        server_now: Double,
        events: Seq<MarketEvent>,
    ) -> bool {
        if self.active_market is None {
            *after == *self && state.1 == state.0 && events.len() == 0
        } else {
            let before = self.active_market->0;
            let m = counted_down(before, secs_left, final_window_secs);
            let entered = before.phase == MarketPhase::Active && m.phase == MarketPhase::Final;
            let update = MarketEvent::PolymarketUpdate(m);
            let cycle = MarketEvent::MarketCycleEvent(
                MarketCycleEvent {
                    event_type: CycleEventType::FinalWindowEntered,
                    market: m,
                    server_time_unix: server_now,
                },
            );
            &&& *after == (Btc5mTracker {
                active_market: Some(m),
                final_window_entered_emitted: self.final_window_entered_emitted
                    || entered,
                ..*self
            })
            &&& state.1 == (MarketState {
                btc5m_market: if entered {
                    Some(m)
                } else {
                    match state.0.btc5m_market {
                        Some(s) => Some(
                            Btc5mMarket {
                                time_remaining_secs: secs_left as i64,
                                phase: m.phase,
                                ..s
                            },
                        ),
                        None => None,
                    }
                },
                ..state.0
            })
            &&& events =~= if !entered {
                Seq::empty()
            } else if self.final_window_entered_emitted {
                seq![update]
            } else {
                seq![update, cycle]
            }
        }
    }

    /// Counts down the active market. On entering the final window the market is
    /// published again, once with the event of its own.
    pub fn tick_active(
        &mut self,
        state: &mut MarketState,
        secs_left: u64,
        final_window_secs: u64,
        server_now: Double,
    ) -> (events: Vec<MarketEvent>)
        requires
            secs_left <= WINDOW_SECS,
        ensures
            old(self).counts_down(
                &*final(self),
                (*old(state), *final(state)),
                secs_left,
                final_window_secs,
                server_now,
                events@,
            ),
            old(self).windows_are_whole() ==> {
                &&& final(self).windows_are_whole()
                &&& old(state).windows_are_whole() ==> final(state).windows_are_whole()
                &&& events_are_whole(events@)
            },
    {
        let mut events: Vec<MarketEvent> = Vec::new();
        let mut m: Btc5mMarket = match self.active_market.take() {
            Some(m) => m,
            None => return events,
        };
        m.time_remaining_secs = secs_left as i64;
        if secs_left <= final_window_secs && m.phase == MarketPhase::Active {
            m.phase = MarketPhase::Final;
            state.btc5m_market = Some(m.clone());
            events.push(MarketEvent::PolymarketUpdate(m.clone()));
            if !self.final_window_entered_emitted {
                events.push(
                    MarketEvent::MarketCycleEvent(
                        MarketCycleEvent {
                            event_type: CycleEventType::FinalWindowEntered,
                            market: m.clone(),
                            server_time_unix: server_now,
                        },
                    ),
                );
                self.final_window_entered_emitted = true;
            }
        }
        match state.btc5m_market.take() {
            Some(shown) => {
                let mut s: Btc5mMarket = shown;
                s.time_remaining_secs = secs_left as i64;
                s.phase = m.phase;
                state.btc5m_market = Some(s);
            },
            None => {},
        }
        self.active_market = Some(m);
        events
    }

    /// The price of the active market is to be polled.
    pub open spec fn poll_is_due(&self, fallback_mode: bool, now_nanos: u64) -> bool {
        let interval: u64 = if fallback_mode {
            2_000_000_000
        } else {
            10_000_000_000
        };
        self.active_market is Some && self.active_market->0.phase == MarketPhase::Active
            && elapsed_ms(now_nanos, self.last_rest_fetch) >= interval
    }

    /// Whether the price of the active market is to be polled: while it is active, every
    /// two seconds in fallback and every ten otherwise. If so, the time is noted.
    pub fn rest_poll_due(&mut self, fallback_mode: bool, now_nanos: u64) -> (r: Option<RestPoll>)
        ensures
            ({
                let due = old(self).poll_is_due(fallback_mode, now_nanos);
                &&& r is Some <==> due
                &&& due ==> r->0 == (RestPoll {
                    yes_token_id: old(self).active_market->0.yes_token_id,
                    slug: old(self).active_market->0.slug,
                })
                &&& due ==> *final(self) == (Btc5mTracker {
                    last_rest_fetch: now_nanos,
                    ..*old(self)
                })
                &&& !due ==> *final(self) == *old(self)
            }),
            old(self).windows_are_whole() ==> final(self).windows_are_whole(),
    {
        let interval: u64 = if fallback_mode {
            2_000_000_000
        } else {
            10_000_000_000
        };
        let poll: Option<RestPoll> = match &self.active_market {
            Some(m) => if m.phase == MarketPhase::Active && now_nanos.saturating_sub(
                self.last_rest_fetch,
            ) >= interval {
                Some(RestPoll { yes_token_id: m.yes_token_id.clone(), slug: m.slug.clone() })
            } else {
                None
            },
            None => None,
        };
        if poll.is_some() {
            self.last_rest_fetch = now_nanos;
        }
        poll
    }

    /// The window whose market is to be fetched ahead.
    pub open spec fn to_prefetch(
        &self,
        state: &MarketState,
        secs_left: u64,
        pre_fetch_next_secs: u64,
    ) -> Option<u64> {
        if secs_left <= pre_fetch_next_secs && state.next_market is None {
            Some((self.current_window_ts + WINDOW_SECS) as u64)
        } else {
            None
        }
    }

    /// The start of the next window, where its market is to be fetched ahead.
    pub fn prefetch_due(&self, state: &MarketState, secs_left: u64, pre_fetch_next_secs: u64) -> (r:
        Option<u64>)
        requires
            self.current_window_ts + WINDOW_SECS <= u64::MAX,
        ensures
            r == self.to_prefetch(state, secs_left, pre_fetch_next_secs),
            self.windows_are_whole() && r is Some ==> r->0 % WINDOW_SECS == 0,
    {
        if secs_left <= pre_fetch_next_secs && state.next_market.is_none() {
            Some(self.current_window_ts + WINDOW_SECS)
        } else {
            None
        }
    }

    /// Checks the health of the feed: silence for ten seconds stops its rate, a rate below
    /// the minimum turns the fallback on and one of a half turns it off, and an outage of
    /// more than a minute is told once.
    pub fn check_feed(&mut self, state: &mut MarketState, ws_min_tick_rate: Double, now_ms: u64)
        -> (events: Vec<MarketEvent>)
        ensures
            ({
                let latency = checked_latency(old(state).latency, ws_min_tick_rate, now_ms);
                let down_secs = down_secs_of(latency, now_ms);
                let alert = outage_is_told(latency, old(self).critical_alert_sent, now_ms);
                &&& *final(state) == (MarketState { latency, ..*old(state) })
                &&& *final(self) == (Btc5mTracker {
                    critical_alert_sent: alert_stands(
                        latency,
                        old(self).critical_alert_sent,
                        now_ms,
                    ),
                    ..*old(self)
                })
                &&& alert ==> events@.len() == 1 && events@[0] is FeedCriticalAlert
                    && events@[0]->feed@ == "Polymarket"@ && events@[0]->down_secs == down_secs
                &&& !alert ==> events@.len() == 0
            }),
            old(self).windows_are_whole() ==> final(self).windows_are_whole(),
            old(state).windows_are_whole() ==> final(state).windows_are_whole(),
            events_are_whole(events@),
    {
        let mut events: Vec<MarketEvent> = Vec::new();
        let silent_ms: u64 = now_ms.saturating_sub(state.latency.polymarket_last_msg_ms);
        if silent_ms > 10_000 {
            state.latency.polymarket_tick_rate = Double::zero();
        }
        let rate: Double = state.latency.polymarket_tick_rate;
        let fallback: bool = state.latency.fallback_mode;
        if rate.lt(ws_min_tick_rate) && !fallback && silent_ms > 10_000 {
            state.latency.fallback_mode = true;
        } else if rate.ge(Double::ratio(5, 10)) && fallback {
            state.latency.fallback_mode = false;
        }
        let down_secs: u64 = silent_ms / 1000;
        if down_secs > 60 && state.latency.fallback_mode && !self.critical_alert_sent {
            events.push(
                MarketEvent::FeedCriticalAlert { feed: "Polymarket".to_owned(), down_secs },
            );
            self.critical_alert_sent = true;
        } else if down_secs < 15 {
            self.critical_alert_sent = false;
        }
        events
    }
}

/// Keeps a market that was fetched ahead, and tells of it.
pub fn store_next(state: &mut MarketState, market: Btc5mMarket, now_ms: u64) -> (event: MarketEvent)
    ensures
        *final(state) == (MarketState { next_market: Some(market), ..*old(state) }),
        event == MarketEvent::MarketCycleEvent(
            MarketCycleEvent {
                event_type: CycleEventType::NextMarketPreloaded,
                market,
                server_time_unix: Double::from_u64(now_ms).div(Double::from_u64(1000)),
            },
        ),
        window_is_whole(market) ==> {
            &&& old(state).windows_are_whole() ==> final(state).windows_are_whole()
            &&& event_is_whole(event)
        },
{
    state.next_market = Some(market.clone());
    MarketEvent::MarketCycleEvent(
        MarketCycleEvent {
            event_type: CycleEventType::NextMarketPreloaded,
            market,
            server_time_unix: Double::from_u64(now_ms).div(Double::from_u64(1000)),
        },
    )
}

/// The market that is shown is that of a window.
pub open spec fn shows_window(state: MarketState, window_ts: u64) -> bool {
    match state.btc5m_market {
        Some(m) => m.window_start_unix == window_ts,
        None => false,
    }
}

/// The state before a connection of a window's socket.
pub open spec fn before_connection(state: MarketState, window_ts: u64) -> MarketState {
    if shows_window(state, window_ts) {
        MarketState {
            latency: LatencyState { fallback_mode: true, ..state.latency },
            ..state
        }
    } else {
        state
    }
}

/// Before a connection of a window's socket: where the window is still the current one,
/// the fallback is on until the socket delivers.
pub fn prepare_connection(state: &mut MarketState, target_window_ts: u64) -> (proceed: bool)
    ensures
        proceed == shows_window(*old(state), target_window_ts),
        *final(state) == before_connection(*old(state), target_window_ts),
        old(state).windows_are_whole() ==> final(state).windows_are_whole(),
{
    let proceed: bool = match &state.btc5m_market {
        Some(m) => m.window_start_unix == target_window_ts,
        None => false,
    };
    if proceed {
        state.latency.fallback_mode = true;
    }
    proceed
}

/// The counters of rejected prices have room for one more.
pub open spec fn can_reject(latency: LatencyState) -> bool {
    latency.price_rejections < u64::MAX && latency.stale_snapshot_rejections < u64::MAX
}

/// The counters after a rejection.
pub open spec fn counted_rejection(
    latency: LatencyState,
    reason: PriceRejectReason,
) -> LatencyState {
    if reason is StaleSnapshot {
        LatencyState {
            stale_snapshot_rejections: (latency.stale_snapshot_rejections + 1) as u64,
            ..latency
        }
    } else {
        LatencyState { price_rejections: (latency.price_rejections + 1) as u64, ..latency }
    }
}

/// The events of a rejection.
pub open spec fn rejection_events(reason: PriceRejectReason, origin: PriceSource) -> Seq<
    MarketEvent,
> {
    if reason is StaleSnapshot {
        Seq::empty()
    } else {
        seq![MarketEvent::PriceRejected { reason, origin }]
    }
}

/// Counts a rejection, and tells of it unless it was of a stale snapshot.
fn reject(
    state: &mut MarketState,
    reason: PriceRejectReason,
    origin: PriceSource,
    events: &mut Vec<MarketEvent>,
)
    requires
        can_reject(old(state).latency),
    ensures
        *final(state) == (MarketState {
            latency: counted_rejection(old(state).latency, reason),
            ..*old(state)
        }),
        final(events)@ == old(events)@ + rejection_events(reason, origin),
{
    match reason {
        PriceRejectReason::StaleSnapshot => {
            state.latency.stale_snapshot_rejections = state.latency.stale_snapshot_rejections + 1;
        },
        _ => {
            state.latency.price_rejections = state.latency.price_rejections + 1;
            events.push(MarketEvent::PriceRejected { reason, origin });
        },
    }
    assert(events@ =~= old(events)@ + rejection_events(reason, origin));
}

/// The update that a polled price makes.
pub open spec fn polled_update(yes_mid: Double, now_ms: u64) -> PriceUpdate {
    PriceUpdate {
        yes_price: yes_mid,
        no_price: Double::one().sub(yes_mid),
        received_at_ms: now_ms,
        source: PriceSource::RestSnapshot,
        sequence_number: None,
    }
}

/// A market with a polled price.
pub open spec fn with_polled_price(m: Btc5mMarket, yes_id: Seq<char>, yes_mid: Double, now_ms: u64)
    -> Btc5mMarket {
    let priced = if !price_in_range(yes_mid) {
        m
    } else if yes_id == m.yes_token_id@ {
        Btc5mMarket {
            yes_price: yes_mid,
            no_price: complement(yes_mid),
            last_fetched_ms: now_ms,
            ..m
        }
    } else if yes_id == m.no_token_id@ {
        Btc5mMarket {
            yes_price: complement(yes_mid),
            no_price: yes_mid,
            last_fetched_ms: now_ms,
            ..m
        }
    } else {
        m
    };
    Btc5mMarket { spread: Double::zero(), ..priced }
}

/// What a polled price does: where the rules accept it, the market it was polled for gets it,
/// if that is still the one shown; a price that they reject is counted.
pub open spec fn poll_taken(
    poll: &RestPoll,
    state: (MarketState, MarketState),
    validator: (PriceValidator, PriceValidator),
    yes_mid: Double,
    latency_ms: u64,
    max_price_jump_pct_per_5s: Double,
    fallback_mode: bool,
    now_ms: u64,
    events: Seq<MarketEvent>,
) -> bool {
    let update = polled_update(yes_mid, now_ms);
    let alert = MarketEvent::LatencyAlert { source: FeedSource::Polymarket, latency_ms };
    let hit = state.0.btc5m_market is Some && state.0.btc5m_market->0.slug@
        == poll.slug@;
    match validator.0.verdict(update, max_price_jump_pct_per_5s, fallback_mode) {
        Some(reason) => {
            &&& validator.1 == validator.0
            &&& state.1 == (MarketState {
                latency: counted_rejection(state.0.latency, reason),
                ..state.0
            })
            &&& events =~= rejection_events(reason, PriceSource::RestSnapshot).push(alert)
        },
        None => {
            &&& validator.1 == (PriceValidator {
                last_valid_price: Some(update),
                last_valid_at_ms: now_ms,
            })
            &&& state.1 == (MarketState {
                btc5m_market: state.1.btc5m_market,
                latency: LatencyState {
                    polymarket_last_msg_ms: now_ms,
                    polymarket_ms: latency_ms,
                    ..state.0.latency
                },
                last_updated_ms: now_ms,
                ..state.0
            })
            &&& !hit ==> state.1.btc5m_market == state.0.btc5m_market && events
                =~= seq![alert]
            &&& hit ==> {
                &&& state.1.btc5m_market is Some
                &&& is_from(
                    state.1.btc5m_market->0,
                    with_polled_price(
                        state.0.btc5m_market->0,
                        poll.yes_token_id@,
                        yes_mid,
                        now_ms,
                    ),
                    "RestSnapshot"@,
                )
                &&& events =~= seq![
                    MarketEvent::PolymarketUpdate(state.1.btc5m_market->0),
                    alert,
                ]
            }
        },
    }
}

/// Takes in a polled price: where the rules accept it, the market it was polled for gets
/// it, if that is still the one shown.
pub fn accept_rest_price(
    state: &mut MarketState,
    validator: &mut PriceValidator,
    poll: &RestPoll,
    yes_mid: Double,
    latency_ms: u64,
    max_price_jump_pct_per_5s: Double,
    fallback_mode: bool,
    now_ms: u64,
) -> (events: Vec<MarketEvent>)
    requires
        can_reject(old(state).latency),
    ensures
        poll_taken(
            poll,
            (*old(state), *final(state)),
            (*old(validator), *final(validator)),
            yes_mid,
            latency_ms,
            max_price_jump_pct_per_5s,
            fallback_mode,
            now_ms,
            events@,
        ),
        old(state).windows_are_whole() ==> final(state).windows_are_whole() && events_are_whole(
            events@,
        ),
{
    let mut events: Vec<MarketEvent> = Vec::new();
    let update: PriceUpdate = PriceUpdate {
        yes_price: yes_mid,
        no_price: Double::one().sub(yes_mid),
        received_at_ms: now_ms,
        source: PriceSource::RestSnapshot,
        sequence_number: None,
    };
    match validator.validate(&update, max_price_jump_pct_per_5s, fallback_mode) {
        Ok(()) => {
            match state.btc5m_market.take() {
                Some(shown) => {
                    let mut m: Btc5mMarket = shown;
                    if same_text(m.slug.as_str(), poll.slug.as_str()) {
                        let _ = apply_price_update(
                            &mut m,
                            poll.yes_token_id.as_str(),
                            yes_mid,
                            now_ms,
                        );
                        m.spread = Double::zero();
                        m.price_source = "RestSnapshot".to_owned();
                        events.push(MarketEvent::PolymarketUpdate(m.clone()));
                    }
                    state.btc5m_market = Some(m);
                },
                None => {},
            }
            state.last_updated_ms = now_ms;
            state.latency.polymarket_last_msg_ms = now_ms;
            state.latency.polymarket_ms = latency_ms;
        },
        Err(reason) => {
            reject(state, reason, PriceSource::RestSnapshot, &mut events);
        },
    }
    events.push(MarketEvent::LatencyAlert { source: FeedSource::Polymarket, latency_ms });
    events
}

/// A market that is counted down keeps its window and prices, leaves the active phase
/// only for the final one, and never goes back to it.
pub proof fn law_phases_only_advance(m: Btc5mMarket, secs_left: u64, final_window_secs: u64)
    ensures
        ({
            let after = counted_down(m, secs_left, final_window_secs);
            &&& after.window_start_unix == m.window_start_unix
            &&& after.yes_price == m.yes_price
            &&& after.no_price == m.no_price
            &&& after.phase != m.phase ==> m.phase == MarketPhase::Active && after.phase
                == MarketPhase::Final && secs_left <= final_window_secs
            &&& m.phase != MarketPhase::Active ==> after.phase == m.phase
        }),
{
}

/// The final window is entered once: counted down again, its market stays in it.
pub proof fn law_final_window_is_entered_once(
    m: Btc5mMarket,
    secs_left: u64,
    later_secs_left: u64,
    final_window_secs: u64,
)
    requires
        counted_down(m, secs_left, final_window_secs).phase == MarketPhase::Final,
    ensures
        counted_down(
            counted_down(m, secs_left, final_window_secs),
            later_secs_left,
            final_window_secs,
        ).phase == MarketPhase::Final,
{
}

/// A message that is applied leaves prices that add up to exactly one.
pub proof fn law_messages_keep_the_sum(m: Btc5mMarket, update: WsUpdateView, now_ms: u64)
    requires
        message_applies(m, update),
        !update.price.is_nan(),
    ensures
        ({
            let after = with_message(m, update, now_ms);
            after.yes_price.add(after.no_price) == Double::one()
        }),
{
    law_prices_sum_to_one(update.price);
}

/// A poll that changes the prices of a market leaves prices that add up to exactly one.
pub proof fn law_polls_keep_the_sum(
    m: Btc5mMarket,
    yes_id: Seq<char>,
    yes_mid: Double,
    now_ms: u64,
)
    requires
        !yes_mid.is_nan(),
    ensures
        ({
            let after = with_polled_price(m, yes_id, yes_mid, now_ms);
            ||| after.yes_price == m.yes_price && after.no_price == m.no_price
            ||| after.yes_price.add(after.no_price) == Double::one()
        }),
{
    if price_in_range(yes_mid) {
        law_prices_sum_to_one(yes_mid);
    }
}

/// A connection of the socket of one market.
pub struct WsSession {
    pub yes_token_id: String,
    pub no_token_id: String,
    /// When messages with prices came, within the last ten seconds of the last one.
    pub msg_timestamps: VecDeque<u64>,
    pub got_first_valid_msg: bool,
}

/// How many times at the front are more than a window before a time.
pub open spec fn expired(times: Seq<u64>, window_ms: u64, now_ms: u64) -> nat
    decreases times.len(),
{
    if times.len() == 0 || now_ms - times[0] <= window_ms {
        0
    } else {
        1 + expired(times.drop_first(), window_ms, now_ms)
    }
}

/// The times within a window after another message.
pub open spec fn times_after(times: Seq<u64>, window_ms: u64, now_ms: u64) -> Seq<u64> {
    let all = times.push(now_ms);
    all.skip(expired(all, window_ms, now_ms) as int)
}

/// Notes the time of a message and forgets those that are too old.
pub(crate) fn note_time(times: &mut VecDeque<u64>, window_ms: u64, now_ms: u64)
    ensures
        final(times)@ == times_after(old(times)@, window_ms, now_ms),
        0 < final(times)@.len() <= old(times)@.len() + 1,
{
    let ghost all = times@.push(now_ms);
    times.push_back(now_ms);
    let ghost mut dropped: int = 0;
    assert(all.skip(0) =~= all);
    while times.len() > 0 && times[0] <= now_ms && now_ms - times[0] > window_ms
        invariant
            all.len() > 0,
            all.last() == now_ms,
            0 <= dropped < all.len(),
            times@ == all.skip(dropped),
            dropped + expired(all.skip(dropped), window_ms, now_ms) == expired(
                all,
                window_ms,
                now_ms,
            ),
        decreases times@.len(),
    {
        assert(all.skip(dropped).drop_first() =~= all.skip(dropped + 1));
        assert(all.skip(dropped)[0] == all[dropped]);
        let _ = times.pop_front();
        proof {
            dropped = dropped + 1;
            assert(times@ =~= all.skip(dropped));
        }
    }
    assert(times@ =~= times_after(old(times)@, window_ms, now_ms));
}

/// The prices that a message would give the market.
pub open spec fn message_update(
    m: Btc5mMarket,
    yes_id: Seq<char>,
    no_id: Seq<char>,
    update: WsUpdateView,
    now_ms: u64,
) -> PriceUpdate {
    let (yes_price, no_price) = if update.token_id == yes_id {
        (update.price, Double::one().sub(update.price))
    } else if update.token_id == no_id {
        (Double::one().sub(update.price), update.price)
    } else {
        (m.yes_price, m.no_price)
    };
    PriceUpdate {
        yes_price,
        no_price,
        received_at_ms: now_ms,
        source: PriceSource::WebSocketLive,
        sequence_number: update.sequence,
    }
}

/// The message is for a token of the market and its price is in range.
pub open spec fn message_applies(m: Btc5mMarket, update: WsUpdateView) -> bool {
    price_in_range(update.price) && (update.token_id == m.yes_token_id@ || update.token_id
        == m.no_token_id@)
}

/// A market with the price and spread of a message.
pub open spec fn with_message(m: Btc5mMarket, update: WsUpdateView, now_ms: u64) -> Btc5mMarket {
    let priced = if update.token_id == m.yes_token_id@ {
        Btc5mMarket {
            yes_price: update.price,
            no_price: complement(update.price),
            last_fetched_ms: now_ms,
            ..m
        }
    } else {
        Btc5mMarket {
            yes_price: complement(update.price),
            no_price: update.price,
            last_fetched_ms: now_ms,
            ..m
        }
    };
    Btc5mMarket {
        spread: if update.spread.gt(Double::zero()) {
            update.spread
        } else {
            priced.spread
        },
        ..priced
    }
}

impl WsSession {
    pub fn new(yes_token_id: String, no_token_id: String) -> (r: Self)
        ensures
            r.yes_token_id == yes_token_id,
            r.no_token_id == no_token_id,
            r.msg_timestamps@.len() == 0,
            !r.got_first_valid_msg,
    {
        WsSession {
            yes_token_id,
            no_token_id,
            msg_timestamps: VecDeque::new(),
            got_first_valid_msg: false,
        }
    }

    /// The state once a message with a price has come: the fallback ends with the first.
    pub open spec fn woken(&self, state: MarketState) -> MarketState {
        if self.got_first_valid_msg {
            state
        } else {
            MarketState {
                latency: LatencyState { fallback_mode: false, ..state.latency },
                ..state
            }
        }
    }

    /// What the price of a message does: where the rules accept it, the market gets it,
    /// if it is for one of its tokens and in range; a price that they reject is counted.
    pub open spec fn takes(
        &self,
        after: &WsSession,
        state: (MarketState, MarketState),
        validator: (PriceValidator, PriceValidator),
        update: WsUpdateView,
        max_price_jump_pct_per_5s: Double,
        now_ms: u64,
        events: Seq<MarketEvent>,
    ) -> bool {
        let woken = self.woken(state.0);
        let m = woken.btc5m_market->0;
        let price = message_update(
            m,
            self.yes_token_id@,
            self.no_token_id@,
            update,
            now_ms,
        );
        let rate = Double::from_u64(after.msg_timestamps@.len() as u64).div(Double::from_u64(10));
        &&& after.yes_token_id == self.yes_token_id
        &&& after.no_token_id == self.no_token_id
        &&& after.got_first_valid_msg
        &&& after.msg_timestamps@ == times_after(self.msg_timestamps@, 10_000, now_ms)
        &&& if woken.btc5m_market is None {
            &&& state.1 == woken
            &&& validator.1 == validator.0
            &&& events.len() == 0
        } else {
            match validator.0.verdict(
                price,
                max_price_jump_pct_per_5s,
                woken.latency.fallback_mode,
            ) {
                Some(reason) => {
                    &&& validator.1 == validator.0
                    &&& state.1 == (MarketState {
                        latency: counted_rejection(woken.latency, reason),
                        ..woken
                    })
                    &&& events == rejection_events(reason, PriceSource::WebSocketLive)
                },
                None => {
                    let heard = MarketState {
                        latency: LatencyState {
                            polymarket_tick_rate: rate,
                            polymarket_last_msg_ms: now_ms,
                            ..woken.latency
                        },
                        ..woken
                    };
                    &&& validator.1 == (PriceValidator {
                        last_valid_price: Some(price),
                        last_valid_at_ms: now_ms,
                    })
                    &&& !message_applies(m, update) ==> state.1 == heard && events.len() == 0
                    &&& message_applies(m, update) ==> {
                        &&& state.1.btc5m_market is Some
                        &&& is_from(
                            state.1.btc5m_market->0,
                            with_message(m, update, now_ms),
                            "WebSocketLive"@,
                        )
                        &&& state.1 == (MarketState {
                            btc5m_market: state.1.btc5m_market,
                            last_updated_ms: now_ms,
                            ..heard
                        })
                        &&& events == seq![
                            MarketEvent::PolymarketUpdate(state.1.btc5m_market->0),
                        ]
                    }
                },
            }
        }
    }

    /// Takes in the price of a message: where the rules accept it, the market gets it, if
    /// it is for one of its tokens and in range.
    pub fn handle_update(
        &mut self,
        state: &mut MarketState,
        validator: &mut PriceValidator,
        update: &WsMarketUpdate,
        max_price_jump_pct_per_5s: Double,
        now_ms: u64,
    ) -> (events: Vec<MarketEvent>)
        requires
            can_reject(old(state).latency),
        ensures
            old(self).takes(
                &*final(self),
                (*old(state), *final(state)),
                (*old(validator), *final(validator)),
                update@,
                max_price_jump_pct_per_5s,
                now_ms,
                events@,
            ),
            old(state).windows_are_whole() ==> final(state).windows_are_whole()
                && events_are_whole(events@),
    {
        let mut events: Vec<MarketEvent> = Vec::new();
        if !self.got_first_valid_msg {
            self.got_first_valid_msg = true;
            state.latency.fallback_mode = false;
        }
        note_time(&mut self.msg_timestamps, 10_000, now_ms);
        let rate: Double = Double::from_u64(self.msg_timestamps.len() as u64).div(
            Double::from_u64(10),
        );
        let fallback_mode: bool = state.latency.fallback_mode;
        let (yes_price, no_price) = match &state.btc5m_market {
            Some(m) => if same_text(update.token_id.as_str(), self.yes_token_id.as_str()) {
                (update.price, Double::one().sub(update.price))
            } else if same_text(update.token_id.as_str(), self.no_token_id.as_str()) {
                (Double::one().sub(update.price), update.price)
            } else {
                (m.yes_price, m.no_price)
            },
            None => return events,
        };
        let price_update: PriceUpdate = PriceUpdate {
            yes_price,
            no_price,
            received_at_ms: now_ms,
            source: PriceSource::WebSocketLive,
            sequence_number: update.sequence,
        };
        match validator.validate(&price_update, max_price_jump_pct_per_5s, fallback_mode) {
            Ok(()) => {
                state.latency.polymarket_tick_rate = rate;
                state.latency.polymarket_last_msg_ms = now_ms;
                match state.btc5m_market.take() {
                    Some(shown) => {
                        let mut m: Btc5mMarket = shown;
                        if apply_price_update(
                            &mut m,
                            update.token_id.as_str(),
                            update.price,
                            now_ms,
                        ) {
                            if update.spread.gt(Double::zero()) {
                                m.spread = update.spread;
                            }
                            m.price_source = "WebSocketLive".to_owned();
                            events.push(MarketEvent::PolymarketUpdate(m.clone()));
                            state.last_updated_ms = now_ms;
                        }
                        state.btc5m_market = Some(m);
                    },
                    None => {},
                }
            },
            Err(reason) => {
                reject(state, reason, PriceSource::WebSocketLive, &mut events);
            },
        }
        events
    }

    /// Notes that the server is there.
    pub fn on_sign_of_life(state: &mut MarketState, now_ms: u64)
        ensures
            *final(state) == (MarketState {
                latency: LatencyState { polymarket_last_msg_ms: now_ms, ..old(state).latency },
                ..*old(state)
            }),
            old(state).windows_are_whole() ==> final(state).windows_are_whole(),
    {
        state.latency.polymarket_last_msg_ms = now_ms;
    }

    /// Takes in a text message. A control message is only a sign of life; a message
    /// without a price and one that is not JSON change nothing, and the latter is told.
    pub fn handle_text(
        &mut self,
        state: &mut MarketState,
        validator: &mut PriceValidator,
        raw: &str,
        max_price_jump_pct_per_5s: Double,
        now_ms: u64,
    ) -> (r: Result<Vec<MarketEvent>, NotJson>)
        requires
            can_reject(old(state).latency),
        ensures
            ({
                let text = trimmed(raw@);
                let document = json_document(text);
                &&& r is Err <==> !is_control(text) && document is None
                &&& is_control(text) || document is None || update_of(document->0) is None ==> {
                    &&& *final(self) == *old(self)
                    &&& *final(validator) == *old(validator)
                    &&& r is Ok ==> r->Ok_0@.len() == 0
                    &&& *final(state) == if is_control(text) {
                        MarketState {
                            latency: LatencyState {
                                polymarket_last_msg_ms: now_ms,
                                ..old(state).latency
                            },
                            ..*old(state)
                        }
                    } else {
                        *old(state)
                    }
                }
                &&& !is_control(text) && document is Some && update_of(document->0) is Some ==> {
                    &&& r is Ok
                    &&& old(self).takes(
                        &*final(self),
                        (*old(state), *final(state)),
                        (*old(validator), *final(validator)),
                        update_of(document->0)->0,
                        max_price_jump_pct_per_5s,
                        now_ms,
                        r->Ok_0@,
                    )
                }
            }),
            old(state).windows_are_whole() ==> final(state).windows_are_whole() && (r is Ok
                ==> events_are_whole(r->Ok_0@)),
    {
        let text: String = trim(raw);
        if is_ws_control_message(text.as_str()) {
            Self::on_sign_of_life(state, now_ms);
            return Ok(Vec::new());
        }
        match normalize_polymarket_ws_msg(text.as_str()) {
            Ok(Some(update)) => Ok(
                self.handle_update(state, validator, &update, max_price_jump_pct_per_5s, now_ms),
            ),
            Ok(None) => Ok(Vec::new()),
            Err(e) => Err(e),
        }
    }
}

/// The price of a message is that of the token that it names: it is set on that token's side
/// and its complement on the other, in what the market shows and in what the rules judge.
pub proof fn law_message_prices_its_own_token(m: Btc5mMarket, update: WsUpdateView, now_ms: u64)
    requires
        message_applies(m, update),
        m.yes_token_id@ != m.no_token_id@,
        price_in_range(update.price),
    ensures
        ({
            let after = with_message(m, update, now_ms);
            let judged = message_update(m, m.yes_token_id@, m.no_token_id@, update, now_ms);
            let (own, other) = if update.token_id == m.no_token_id@ {
                (after.no_price, after.yes_price)
            } else {
                (after.yes_price, after.no_price)
            };
            &&& own == update.price
            &&& other == complement(update.price)
            &&& judged.yes_price == update.price <== update.token_id == m.yes_token_id@
            &&& judged.no_price == update.price <== update.token_id == m.no_token_id@
            &&& judged.received_at_ms == now_ms && after.last_fetched_ms == now_ms
            &&& judged.source == PriceSource::WebSocketLive
            &&& judged.sequence_number == update.sequence
            &&& after.phase == m.phase && after.window_start_unix == m.window_start_unix
            &&& after.time_remaining_secs == m.time_remaining_secs
        }),
{
}

/// A message that names one token does to a market what the same message about the other
/// token does to the market with its sides swapped.
pub proof fn law_messages_treat_sides_alike(
    m: Btc5mMarket,
    swapped: Btc5mMarket,
    update: WsUpdateView,
    now_ms: u64,
)
    requires
        message_applies(m, update),
        m.yes_token_id@ != m.no_token_id@,
        swapped.yes_token_id == m.no_token_id,
        swapped.no_token_id == m.yes_token_id,
        swapped.spread == m.spread,
    ensures
        ({
            let (a, b) = (with_message(m, update, now_ms), with_message(swapped, update, now_ms));
            &&& message_applies(swapped, update)
            &&& a.yes_price == b.no_price
            &&& a.no_price == b.yes_price
            &&& a.spread == b.spread
        }),
{
}

/// A message about another token is judged by the prices that the market has.
pub proof fn law_foreign_message_is_judged_unchanged(
    m: Btc5mMarket,
    update: WsUpdateView,
    now_ms: u64,
)
    requires
        update.token_id != m.yes_token_id@,
        update.token_id != m.no_token_id@,
    ensures
        ({
            let judged = message_update(m, m.yes_token_id@, m.no_token_id@, update, now_ms);
            judged.yes_price == m.yes_price && judged.no_price == m.no_price
        }),
        !message_applies(m, update),
{
}

/// A spread above zero replaces that of the market; any other leaves it.
pub proof fn law_message_spread_replaces(m: Btc5mMarket, update: WsUpdateView, now_ms: u64)
    requires
        !update.spread.is_nan(),
    ensures
        ({
            let after = with_message(m, update, now_ms);
            &&& update.spread.value() > 0 ==> after.spread == update.spread
            &&& update.spread.value() <= 0 ==> after.spread == m.spread
        }),
{
    reveal(Double::spec_lt);
    assert(magnitude(0) == 0);
}

/// A polled price is that of the token that was polled: it is set on that token's side, and
/// its complement on the other; a price that is out of range leaves both.
pub proof fn law_poll_prices_its_own_token(
    m: Btc5mMarket,
    token_id: Seq<char>,
    price: Double,
    now_ms: u64,
)
    requires
        !price.is_nan(),
        m.yes_token_id@ != m.no_token_id@,
    ensures
        ({
            let after = with_polled_price(m, token_id, price, now_ms);
            let in_range = Double::ratio(1, 100).value() <= price.value() <= Double::ratio(
                99,
                100,
            ).value();
            &&& in_range && token_id == m.yes_token_id@ ==> after.yes_price == price
                && after.no_price == complement(price) && after.last_fetched_ms == now_ms
            &&& in_range && token_id == m.no_token_id@ ==> after.no_price == price
                && after.yes_price == complement(price) && after.last_fetched_ms == now_ms
            &&& !in_range || token_id != m.yes_token_id@ && token_id != m.no_token_id@
                ==> after.yes_price == m.yes_price && after.no_price == m.no_price
                && after.last_fetched_ms == m.last_fetched_ms
            &&& after.spread.value() == 0
            &&& after.phase == m.phase && after.window_start_unix == m.window_start_unix
        }),
        polled_update(price, now_ms).yes_price == price,
        polled_update(price, now_ms).source == PriceSource::RestSnapshot,
        polled_update(price, now_ms).sequence_number is None,
{
    reveal(Double::spec_lt);
    assert(magnitude(0) == 0);
    law_ratio_up_to_one(1, 100);
    law_ratio_up_to_one(99, 100);
}

/// A market is active up to its final seconds, has the time that is left, and shows the first
/// price on its YES side where that is in range.
pub proof fn law_activation_sets_time_and_price(
    m: Btc5mMarket,
    quote: (Double, Double),
    secs_left: u64,
    final_window_secs: u64,
    now_ms: u64,
)
    requires
        secs_left <= WINDOW_SECS,
    ensures
        ({
            let after = activated(m, quote, secs_left, final_window_secs, now_ms);
            &&& after.time_remaining_secs == secs_left
            &&& after.phase == MarketPhase::Active <==> secs_left > final_window_secs
            &&& after.phase == MarketPhase::Final <==> secs_left <= final_window_secs
            &&& price_in_range(quote.0) ==> after.yes_price == quote.0 && after.no_price
                == complement(quote.0) && after.last_fetched_ms == now_ms
            &&& !price_in_range(quote.0) ==> after.yes_price == m.yes_price && after.no_price
                == m.no_price
            &&& after.spread == quote.1
            &&& after.window_start_unix == m.window_start_unix
        }),
{
}

/// A market that is counted down shows the time that is left, and an active one enters the
/// final phase exactly when its final seconds have come.
pub proof fn law_final_phase_comes_in_time(m: Btc5mMarket, secs_left: u64, final_window_secs: u64)
    requires
        secs_left <= WINDOW_SECS,
        m.phase == MarketPhase::Active,
    ensures
        ({
            let after = counted_down(m, secs_left, final_window_secs);
            &&& after.time_remaining_secs == secs_left
            &&& after.phase == MarketPhase::Final <==> secs_left <= final_window_secs
        }),
{
}

/// The price of a book is between its bid and its ask where both are there, exactly in the
/// middle where that is a double, and the one that is there where one is not; the spread is
/// their distance.
pub proof fn law_quote_lies_between(bid: Double, ask: Double, middle: Double)
    requires
        !bid.is_nan(),
        !ask.is_nan(),
        0 <= bid.value() <= ask.value() <= Double::one().value(),
    ensures
        ({
            let (price, spread) = quote_between(bid, ask);
            &&& bid.value() <= price.value() <= ask.value()
            &&& bid.value() == 0 ==> price.value() == ask.value()
            &&& bid.value() > 0 && !middle.is_nan() && bid.value() + ask.value() == 2
                * middle.value() ==> price == middle
            &&& spread.value() >= 0
            &&& spread.value() == 0 <==> bid.value() == ask.value()
        }),
{
    reveal(Double::spec_lt);
    reveal(Double::spec_abs);
    assert(magnitude(0) == 0);
    lemma_one();
    law_sums_of_shares_are_finite(ask, ask);
    law_sums_of_shares_are_finite(bid, ask);
    law_difference_has_a_sign(ask, bid);
    if bid.value() > 0 {
        law_middle_lies_between(bid, ask);
        if !middle.is_nan() && bid.value() + ask.value() == 2 * middle.value() {
            law_sums_of_shares_are_finite(middle, middle);
            law_exact_middle_is_met(bid, ask, middle);
        }
    }
}

/// Every rejection is counted once: that of a stale snapshot as such, and silently, any other
/// as a rejected price, and told.
pub proof fn law_rejections_are_counted_once(
    latency: LatencyState,
    reason: PriceRejectReason,
    origin: PriceSource,
)
    requires
        can_reject(latency),
    ensures
        ({
            let after = counted_rejection(latency, reason);
            let stale = after.stale_snapshot_rejections - latency.stale_snapshot_rejections;
            let rejected = after.price_rejections - latency.price_rejections;
            &&& stale + rejected == 1
            &&& stale == 1 <==> reason is StaleSnapshot
            &&& rejection_events(reason, origin).len() == rejected
            &&& rejected == 1 ==> rejection_events(reason, origin)[0]
                == (MarketEvent::PriceRejected { reason, origin })
            &&& after.fallback_mode == latency.fallback_mode
            &&& after.polymarket_last_msg_ms == latency.polymarket_last_msg_ms
        }),
{
}

/// The times that are kept are the last ones, up to the newest: those that go are each older
/// than the window, and the oldest that stays is not.
pub proof fn law_kept_times_lie_in_the_window(times: Seq<u64>, window_ms: u64, now_ms: u64)
    ensures
        ({
            let all = times.push(now_ms);
            let kept = times_after(times, window_ms, now_ms);
            let gone = all.len() - kept.len();
            &&& kept.len() > 0 && kept.last() == now_ms
            &&& gone >= 0 && kept == all.skip(gone)
            &&& forall|i: int| 0 <= i < gone ==> now_ms - #[trigger] all[i] > window_ms
            &&& now_ms - kept[0] <= window_ms
        }),
{
    let all = times.push(now_ms);
    lemma_expired(all, window_ms, now_ms);
}

proof fn lemma_expired(all: Seq<u64>, window_ms: u64, now_ms: u64)
    requires
        all.len() > 0,
        all.last() == now_ms,
    ensures
        ({
            let gone = expired(all, window_ms, now_ms);
            &&& gone < all.len()
            &&& forall|i: int| 0 <= i < gone ==> now_ms - #[trigger] all[i] > window_ms
            &&& now_ms - all[gone as int] <= window_ms
        }),
    decreases all.len(),
{
    if now_ms - all[0] > window_ms {
        let rest = all.drop_first();
        assert(rest.last() == now_ms);
        lemma_expired(rest, window_ms, now_ms);
        assert forall|i: int| 0 <= i < expired(all, window_ms, now_ms) implies now_ms
            - #[trigger] all[i] > window_ms by {
            if i > 0 {
                assert(rest[i - 1] == all[i]);
            }
        }
    }
}

/// The tokens found by their labels are those of token objects with such labels, the last of
/// each, and no label names both outcomes.
pub proof fn law_tokens_are_found_by_label(tokens: Seq<JsonView>, i: int)
    requires
        0 <= i < tokens.len(),
    ensures
        ({
            let found = tokens_by_label(tokens);
            let label = label_of(tokens[i]);
            let id = token_id_of(tokens[i])->0;
            &&& !(means_yes(label) && means_no(label))
            &&& means_yes(label) && (forall|j: int|
                i < j < tokens.len() ==> !means_yes(label_of(#[trigger] tokens[j])))
                ==> found.yes == Some((id, label))
            &&& means_no(label) && (forall|j: int|
                i < j < tokens.len() ==> !means_no(label_of(#[trigger] tokens[j])))
                ==> found.no == Some((id, label))
            &&& found.yes is Some ==> means_yes((found.yes->0).1)
            &&& found.no is Some ==> means_no((found.no->0).1)
        }),
    decreases tokens.len(),
{
    let rest = tokens.drop_last();
    assert(forall|j: int| 0 <= j < rest.len() ==> rest[j] == tokens[j]);
    assert(tokens.last() == tokens[tokens.len() - 1]);
    lemma_labels_differ(label_of(tokens[i]));
    lemma_labels_differ(label_of(tokens.last()));
    if i < rest.len() {
        law_tokens_are_found_by_label(rest, i);
    } else if rest.len() > 0 {
        law_tokens_are_found_by_label(rest, 0);
    }
}

/// A label names at most one outcome.
proof fn lemma_labels_differ(label: Seq<char>)
    ensures
        !(means_yes(label) && means_no(label)),
{
    reveal_strlit("yes");
    reveal_strlit("up");
    reveal_strlit("higher");
    reveal_strlit("above");
    reveal_strlit("no");
    reveal_strlit("down");
    reveal_strlit("lower");
    reveal_strlit("below");
    if means_yes(label) && means_no(label) {
        assert(label.len() >= 2);
        assert(label[0] == 'y' || label[0] == 'u' || label[0] == 'h' || label[0] == 'a');
        assert(label[0] == 'n' || label[0] == 'd' || label[0] == 'l' || label[0] == 'b');
    }
}

/// The first identifiers of a list are those of YES and NO where no label says otherwise, and
/// an outcome that labels name has the identifier at the place of the last of them.
pub proof fn law_listed_tokens_follow_labels(ids: Seq<Seq<char>>, labels: Seq<Seq<char>>, i: int)
    requires
        ids.len() >= 2,
        labels.len() <= ids.len(),
    ensures
        ({
            let r = tokens_by_place(ids, labels);
            &&& (forall|j: int|
                0 <= j < labels.len() ==> !means_yes(lowercase(#[trigger] labels[j])))
                ==> r.yes_token_id == ids[0] && r.yes_outcome == "yes"@
            &&& (forall|j: int|
                0 <= j < labels.len() ==> !means_no(lowercase(#[trigger] labels[j])))
                ==> r.no_token_id == ids[1] && r.no_outcome == "no"@
            &&& 0 <= i < labels.len() && means_yes(lowercase(labels[i])) && (forall|j: int|
                i < j < labels.len() ==> !means_yes(lowercase(#[trigger] labels[j])))
                ==> r.yes_token_id == ids[i] && r.yes_outcome == lowercase(labels[i])
            &&& 0 <= i < labels.len() && means_no(lowercase(labels[i])) && (forall|j: int|
                i < j < labels.len() ==> !means_no(lowercase(#[trigger] labels[j])))
                ==> r.no_token_id == ids[i] && r.no_outcome == lowercase(labels[i])
        }),
    decreases labels.len(),
{
    if labels.len() > 0 {
        let rest = labels.drop_last();
        assert(forall|j: int| 0 <= j < rest.len() ==> rest[j] == labels[j]);
        assert(labels.last() == labels[labels.len() - 1]);
        lemma_labels_differ(lowercase(labels.last()));
        law_listed_tokens_follow_labels(ids, rest, i);
    }
}

/// A price is polled only while its market is active: every two seconds in fallback and every
/// ten otherwise, so that one that is due without the fallback is due with it.
pub proof fn law_polls_keep_their_interval(
    tracker: Btc5mTracker,
    fallback_mode: bool,
    now_nanos: u64,
)
    requires
        tracker.last_rest_fetch <= now_nanos,
    ensures
        ({
            let waited = now_nanos - tracker.last_rest_fetch;
            let active = tracker.active_market is Some && tracker.active_market->0.phase
                == MarketPhase::Active;
            &&& tracker.poll_is_due(true, now_nanos) <==> active && waited >= 2_000_000_000
            &&& tracker.poll_is_due(false, now_nanos) <==> active && waited >= 10_000_000_000
            &&& tracker.poll_is_due(false, now_nanos) ==> tracker.poll_is_due(true, now_nanos)
        }),
{
}

/// A feed that was heard within ten seconds keeps its rate, and no check turns its fallback
/// on. One that was not has no rate, and is in fallback where any rate is asked for. The
/// fallback ends only at a rate of a half or more.
pub proof fn law_silence_turns_the_fallback_on(
    latency: LatencyState,
    ws_min_tick_rate: Double,
    now_ms: u64,
)
    requires
        latency.polymarket_last_msg_ms <= now_ms,
        !latency.polymarket_tick_rate.is_nan(),
        !ws_min_tick_rate.is_nan(),
    ensures
        ({
            let after = checked_latency(latency, ws_min_tick_rate, now_ms);
            let silent = now_ms - latency.polymarket_last_msg_ms;
            &&& silent <= 10_000 ==> after.polymarket_tick_rate == latency.polymarket_tick_rate
            &&& silent > 10_000 ==> after.polymarket_tick_rate.value() == 0
            &&& after.fallback_mode && !latency.fallback_mode ==> silent > 10_000
            &&& silent > 10_000 && ws_min_tick_rate.value() > 0 ==> after.fallback_mode
            &&& latency.fallback_mode && !after.fallback_mode <==> latency.fallback_mode
                && after.polymarket_tick_rate.value() >= Double::ratio(5, 10).value()
            &&& after.polymarket_last_msg_ms == latency.polymarket_last_msg_ms
            &&& after.binance_ms == latency.binance_ms
        }),
{
    reveal(Double::spec_lt);
    reveal(Double::spec_equals);
    assert(magnitude(0) == 0);
    law_ratio_up_to_one(5, 10);
    law_ratio_is_above_zero(5, 10);
}

/// An outage is told of once, only in fallback and only after more than a minute of silence;
/// it may be told of again once the feed was heard within fifteen seconds.
pub proof fn law_outage_is_told_once(latency: LatencyState, told: bool, now_ms: u64)
    requires
        latency.polymarket_last_msg_ms <= now_ms,
    ensures
        ({
            let silent = now_ms - latency.polymarket_last_msg_ms;
            let after = alert_stands(latency, told, now_ms);
            &&& outage_is_told(latency, told, now_ms) <==> silent >= 61_000
                && latency.fallback_mode && !told
            &&& outage_is_told(latency, told, now_ms) ==> after
            &&& after ==> !outage_is_told(latency, after, now_ms)
            &&& silent < 15_000 ==> !after
            &&& silent >= 15_000 && told ==> after
            &&& down_secs_of(latency, now_ms) * 1000 <= silent
                < down_secs_of(latency, now_ms) * 1000 + 1000
        }),
{
}

/// A market is lacking exactly where the time is not in the window of the active one.
pub proof fn law_market_serves_its_window(tracker: Btc5mTracker, server_now: Double)
    requires
        tracker.windows_are_whole(),
        tracker.active_market is Some,
        window_fits(server_now),
    ensures
        tracker.lacks_market(server_now) <==> !(tracker.active_market->0.window_start_unix
            <= server_now.to_u64() < tracker.active_market->0.window_start_unix + WINDOW_SECS),
{
    law_time_lies_in_its_window(server_now);
}

/// The market that is fetched ahead is that of the window after the current one, and only
/// towards the end of that, and only once.
pub proof fn law_next_window_is_fetched_ahead(
    tracker: Btc5mTracker,
    state: &MarketState,
    secs_left: u64,
    pre_fetch_next_secs: u64,
)
    requires
        tracker.current_window_ts + WINDOW_SECS <= u64::MAX,
    ensures
        ({
            let next = tracker.to_prefetch(state, secs_left, pre_fetch_next_secs);
            &&& next is Some <==> secs_left <= pre_fetch_next_secs && state.next_market is None
            &&& next is Some ==> next->0 - tracker.current_window_ts == WINDOW_SECS
        }),
{
}

/// Markets of different windows have different names.
pub proof fn law_windows_have_names_of_their_own(a: u64, b: u64)
    ensures
        slug_of(a) == slug_of(b) <==> a == b,
{
    let prefix = "btc-updown-5m-"@;
    law_digits_stand_for_their_number(a as nat);
    law_digits_stand_for_their_number(b as nat);
    if slug_of(a) == slug_of(b) {
        assert(slug_of(a).skip(prefix.len() as int) =~= decimal(a as nat));
        assert(slug_of(b).skip(prefix.len() as int) =~= decimal(b as nat));
    }
}

/// A market of a window is described by its tokens as they are mapped, lasts for one window,
/// and starts before its opening with both sides at one half.
pub proof fn law_described_market_has_its_tokens(
    r: Btc5mMarket,
    market: GammaMarket,
    mapping: TokenMapping,
    window_ts: u64,
    time_remaining_secs: i64,
    now_ms: u64,
)
    requires
        described(r, market, mapping, window_ts, time_remaining_secs, now_ms),
        window_ts + WINDOW_SECS <= u64::MAX,
    ensures
        r.yes_token_id@ == mapping@.yes_token_id,
        r.no_token_id@ == mapping@.no_token_id,
        r.slug@ == market@.slug,
        r.condition_id@ == market@.condition_id,
        r.window_start_unix == window_ts,
        r.window_end_unix - r.window_start_unix == 300,
        r.phase == MarketPhase::PreOpen,
        2 * r.yes_price.value() == Double::one().value(),
        r.yes_price == r.no_price,
        r.time_remaining_secs == time_remaining_secs,
        r.last_fetched_ms == now_ms,
{
    lemma_half();
    lemma_one();
}

/// A market that was fetched ahead is used exactly where it has the name of the window's.
pub proof fn law_only_the_right_market_is_kept(next: Option<Btc5mMarket>, window_ts: u64)
    ensures
        kept_ahead(next, slug_of(window_ts)) is Some <==> next is Some && next->0.slug@
            == "btc-updown-5m-"@ + decimal(window_ts as nat),
        kept_ahead(next, slug_of(window_ts)) is Some ==> kept_ahead(next, slug_of(window_ts))
            == next,
{
}

/// A connection is prepared only while the market that is shown is that of its window, and
/// puts the feed into fallback; nothing else changes.
pub proof fn law_connection_starts_in_fallback(state: MarketState, window_ts: u64)
    ensures
        ({
            let after = before_connection(state, window_ts);
            let current = state.btc5m_market is Some && state.btc5m_market->0.window_start_unix
                == window_ts;
            &&& shows_window(state, window_ts) <==> current
            &&& current ==> after.latency.fallback_mode
            &&& !current ==> after == state
            &&& after.btc5m_market == state.btc5m_market
            &&& after.latency.polymarket_last_msg_ms == state.latency.polymarket_last_msg_ms
        }),
{
}

/// A midpoint comes before a book, and a market that has neither starts at one half with a
/// spread of a cent.
pub proof fn law_midpoint_comes_before_the_book(
    midpoint: Option<Double>,
    book: Option<(Double, Double)>,
    levels: Option<ClobBook>,
)
    ensures
        midpoint is Some ==> starting_quote(midpoint, book).0 == midpoint->0 && second_quote(
            midpoint,
            levels,
        ) is Some && (second_quote(midpoint, levels)->0).0 == midpoint->0,
        midpoint is Some || book is None ==> starting_quote(midpoint, book).1.value()
            == Double::ratio(1, 100).value(),
        midpoint is Some ==> (second_quote(midpoint, levels)->0).1.value() == 0,
        midpoint is None && book is Some ==> Some(starting_quote(midpoint, book)) == book,
        midpoint is None && book is None ==> 2 * starting_quote(midpoint, book).0.value()
            == Double::one().value(),
        midpoint is None ==> (second_quote(midpoint, levels) is Some <==> levels is Some),
{
    assert(magnitude(0) == 0);
    lemma_half();
    lemma_one();
}

/// A poll that the rules reject, and one for a market that is no longer shown, leave the
/// market that is; whatever comes of it, the latency is told last.
pub proof fn law_poll_changes_only_its_market(
    poll: &RestPoll,
    state: (MarketState, MarketState),
    validator: (PriceValidator, PriceValidator),
    yes_mid: Double,
    latency_ms: u64,
    max_price_jump_pct_per_5s: Double,
    fallback_mode: bool,
    now_ms: u64,
    events: Seq<MarketEvent>,
)
    requires
        poll_taken(
            poll,
            state,
            validator,
            yes_mid,
            latency_ms,
            max_price_jump_pct_per_5s,
            fallback_mode,
            now_ms,
            events,
        ),
    ensures
        validator.0.verdict(
            polled_update(yes_mid, now_ms),
            max_price_jump_pct_per_5s,
            fallback_mode,
        ) is Some ==> state.1.btc5m_market == state.0.btc5m_market && validator.1 == validator.0,
        state.0.btc5m_market is None ==> state.1.btc5m_market is None,
        state.0.btc5m_market is Some && state.0.btc5m_market->0.slug@ != poll.slug@
            ==> state.1.btc5m_market == state.0.btc5m_market,
        state.1.btc5m_market is Some ==> state.1.btc5m_market->0.phase
            == state.0.btc5m_market->0.phase && state.1.btc5m_market->0.slug
            == state.0.btc5m_market->0.slug,
        state.1.btc == state.0.btc,
        state.1.latency.fallback_mode == state.0.latency.fallback_mode,
        events.len() > 0 && events.last() == (MarketEvent::LatencyAlert {
            source: FeedSource::Polymarket,
            latency_ms,
        }),
{
}

/// A turn leaves the market that is shown in the phase and with the time of the active one,
/// and tells of the final window at most once to an active market.
pub proof fn law_shown_market_follows_the_active(
    before: Btc5mTracker,
    after: Btc5mTracker,
    state: (MarketState, MarketState),
    secs_left: u64,
    final_window_secs: u64,
    server_now: Double,
    events: Seq<MarketEvent>,
)
    requires
        before.counts_down(&after, state, secs_left, final_window_secs, server_now, events),
        before.active_market is Some,
        secs_left <= WINDOW_SECS,
    ensures
        after.active_market is Some,
        after.active_market->0.time_remaining_secs == secs_left,
        state.1.btc5m_market is Some ==> state.1.btc5m_market->0.phase
            == after.active_market->0.phase && state.1.btc5m_market->0.time_remaining_secs
            == secs_left,
        state.0.btc5m_market is Some ==> state.1.btc5m_market is Some,
        events.len() > 0 ==> before.active_market->0.phase == MarketPhase::Active
            && after.active_market->0.phase == MarketPhase::Final,
        events.len() > 1 ==> !before.final_window_entered_emitted
            && after.final_window_entered_emitted,
        before.final_window_entered_emitted ==> after.final_window_entered_emitted
            && events.len() <= 1,
        state.1.latency == state.0.latency,
        state.1.btc == state.0.btc,
{
}

/// A market in order is the one that the object of the same fields describes.
pub proof fn law_listed_market_is_the_named_one(v: JsonView, items: Seq<JsonView>)
    requires
        named_market(v) is Some,
        items.len() == 7,
        items[0] == JsonView::Str(v.text_field("conditionId"@)->0),
        items[1] == JsonView::Str(v.text_field("slug"@)->0),
        items[2] == JsonView::Str(v.text_field("question"@)->0),
        Some(items[3]) == v.field("active"@),
        Some(items[4]) == v.field("closed"@),
        items[5] == JsonView::Str(v.text_field("clobTokenIds"@)->0),
        Some(items[6]) == v.field("volume24hrClob"@),
    ensures
        listed_market(items) == named_market(v),
{
}

} // verus!
