//! The rules that accept or reject a price update.
use vstd::prelude::*;
use vstd::arithmetic::power2::lemma_pow2_pos;

use crate::numeric::Double;
use crate::numeric::order::{
    law_difference_has_a_sign, law_integer_is_a_number, law_integers_keep_order,
    law_product_grows, law_product_with_one, law_quotient_keeps_order, law_quotient_keeps_sign,
    law_quotient_shrinks, law_ratio_is_above_zero, law_ratio_up_to_one, law_self_quotient_is_one,
    law_value_determines_number, lemma_one, lemma_share_is_finite,
};
use crate::numeric::rounding::magnitude;
use crate::text::{decimal, decimal_text, shows};

verus! {

/// Where a price comes from.
#[derive(Clone, Copy, Debug, PartialEq, Eq, Structural)]
pub enum PriceSource {
    WebSocketLive,
    RestSnapshot,
    Interpolated,
}

impl PriceSource {
    pub fn as_str(&self) -> (r: &'static str)
        ensures
            r@ == match *self {
                PriceSource::WebSocketLive => "WebSocketLive"@,
                PriceSource::RestSnapshot => "RestSnapshot"@,
                PriceSource::Interpolated => "Interpolated"@,
            },
    {
        match self {
            PriceSource::WebSocketLive => "WebSocketLive",
            PriceSource::RestSnapshot => "RestSnapshot",
            PriceSource::Interpolated => "Interpolated",
        }
    }
}

#[derive(Clone, Copy, Debug)]
pub struct PriceUpdate {
    pub yes_price: Double,
    pub no_price: Double,
    pub received_at_ms: u64,
    pub source: PriceSource,
    pub sequence_number: Option<u64>,
}

#[derive(Clone, Copy, Debug)]
pub enum PriceRejectReason {
    /// The price moved further than the time since the last one allows.
    SuspiciousJump { change: Double, time_ms: u64, allowed: Double },
    /// A snapshot came right after a live price.
    StaleSnapshot,
    OutOfSequence { received: u64, last: u64 },
}

impl PriceRejectReason {
    /// The reason in words, where they show no double.
    pub open spec fn words(self) -> Option<Seq<char>> {
        match self {
            PriceRejectReason::StaleSnapshot => Some(
                "stale REST snapshot after live WS price received"@,
            ),
            PriceRejectReason::OutOfSequence { received, last } => Some(
                "out of sequence: received="@ + decimal(received as nat) + ", last="@ + decimal(
                    last as nat,
                ),
            ),
            PriceRejectReason::SuspiciousJump { .. } => None,
        }
    }

    pub fn text(&self) -> (r: Option<String>)
        ensures
            shows(r, self.words()),
    {
        match *self {
            PriceRejectReason::StaleSnapshot => Some(
                "stale REST snapshot after live WS price received".to_owned(),
            ),
            PriceRejectReason::OutOfSequence { received, last } => Some(
                "out of sequence: received=".to_owned().concat(
                    decimal_text(received).as_str(),
                ).concat(", last=").concat(decimal_text(last).as_str()),
            ),
            PriceRejectReason::SuspiciousJump { .. } => None,
        }
    }

    /// The reason by its name, with its numbers, where none is a double.
    pub open spec fn record(self) -> Option<Seq<char>> {
        match self {
            PriceRejectReason::StaleSnapshot => Some("StaleSnapshot"@),
            PriceRejectReason::OutOfSequence { received, last } => Some(
                "OutOfSequence { received: "@ + decimal(received as nat) + ", last: "@ + decimal(
                    last as nat,
                ) + " }"@,
            ),
            PriceRejectReason::SuspiciousJump { .. } => None,
        }
    }

    pub fn record_text(&self) -> (r: Option<String>)
        ensures
            shows(r, self.record()),
    {
        match *self {
            PriceRejectReason::StaleSnapshot => Some("StaleSnapshot".to_owned()),
            PriceRejectReason::OutOfSequence { received, last } => Some(
                "OutOfSequence { received: ".to_owned().concat(
                    decimal_text(received).as_str(),
                ).concat(", last: ").concat(decimal_text(last).as_str()).concat(" }"),
            ),
            PriceRejectReason::SuspiciousJump { .. } => None,
        }
    }
}

/// What a rejection of a price from a source is told as, given the record of its reason.
pub open spec fn rejection_message(record: Seq<char>, origin: PriceSource) -> Seq<char> {
    (if origin == PriceSource::RestSnapshot {
        "[price_validator] REJECTED REST update: "@
    } else {
        "[price_validator] REJECTED update: "@
    }) + record
}

/// Tells of a rejection of a price from a source.
pub fn rejection_text(record: &str, origin: PriceSource) -> (r: String)
    ensures
        r@ == rejection_message(record@, origin),
{
    match origin {
        PriceSource::RestSnapshot => "[price_validator] REJECTED REST update: ",
        _ => "[price_validator] REJECTED update: ",
    }.to_owned().concat(record)
}

/// The last price that was accepted, and when it came.
#[derive(Clone, Copy, Debug)]
pub struct PriceValidator {
    pub last_valid_price: Option<PriceUpdate>,
    pub last_valid_at_ms: u64,
}

/// Milliseconds from one time to another; zero if it comes first.
pub open spec fn elapsed_ms(now_ms: u64, then_ms: u64) -> u64 {
    if now_ms < then_ms {
        0
    } else {
        (now_ms - then_ms) as u64
    }
}

/// The larger of the changes of the two prices.
pub open spec fn price_change(update: PriceUpdate, last: PriceUpdate) -> Double {
    update.yes_price.sub(last.yes_price).abs().max(update.no_price.sub(last.no_price).abs())
}

/// The change that is allowed: the limit for five seconds, in proportion to the time
/// passed, but at least a tenth of it.
pub open spec fn allowed_change(time_ms: u64, max_per_5s: Double) -> Double {
    let factor = Double::from_u64(time_ms).div(Double::from_u64(5000)).min(Double::one());
    max_per_5s.mul(factor.max(Double::ratio(1, 10)))
}

impl PriceValidator {
    /// Why an update is rejected, if it is: first a jump within three seconds, then a
    /// snapshot within 800 milliseconds of a live price unless the feed is in
    /// fallback, then a sequence number that does not grow.
    pub open spec fn verdict(
        self,
        update: PriceUpdate,
        max_price_jump_pct_per_5s: Double,
        fallback_mode: bool,
    ) -> Option<PriceRejectReason> {
        match self.last_valid_price {
            None => None,
            Some(last) => {
                let time_ms = elapsed_ms(update.received_at_ms, self.last_valid_at_ms);
                let change = price_change(update, last);
                let allowed = allowed_change(time_ms, max_price_jump_pct_per_5s);
                if change.gt(allowed) && time_ms < 3000 {
                    Some(PriceRejectReason::SuspiciousJump { change, time_ms, allowed })
                } else if update.source == PriceSource::RestSnapshot && last.source
                    == PriceSource::WebSocketLive && time_ms < 800 && !fallback_mode {
                    Some(PriceRejectReason::StaleSnapshot)
                } else if update.sequence_number is Some && last.sequence_number is Some
                    && update.sequence_number->0 <= last.sequence_number->0 {
                    Some(
                        PriceRejectReason::OutOfSequence {
                            received: update.sequence_number->0,
                            last: last.sequence_number->0,
                        },
                    )
                } else {
                    None
                }
            },
        }
    }

    pub fn new() -> (r: Self)
        ensures
            r.last_valid_price is None,
            r.last_valid_at_ms == 0,
    {
        PriceValidator { last_valid_price: None, last_valid_at_ms: 0 }
    }

    /// Accepts or rejects an update. An accepted one becomes the last; a rejected one
    /// changes nothing.
    pub fn validate(
        &mut self,
        update: &PriceUpdate,
        max_price_jump_pct_per_5s: Double,
        fallback_mode: bool,
    ) -> (r: Result<(), PriceRejectReason>)
        ensures
            match old(self).verdict(*update, max_price_jump_pct_per_5s, fallback_mode) {
                Some(reason) => r == Err::<(), PriceRejectReason>(reason) && *final(self) == *old(
                    self,
                ),
                None => r is Ok && *final(self) == (PriceValidator {
                    last_valid_price: Some(*update),
                    last_valid_at_ms: update.received_at_ms,
                }),
            },
    {
        if let Some(last) = self.last_valid_price {
            let yes_change: Double = update.yes_price.sub(last.yes_price).abs();
            let no_change: Double = update.no_price.sub(last.no_price).abs();
            let max_change: Double = yes_change.max(no_change);
            let time_delta_ms: u64 = update.received_at_ms.saturating_sub(self.last_valid_at_ms);
            let time_factor: Double = Double::from_u64(time_delta_ms).div(
                Double::from_u64(5000),
            ).min(Double::one());
            let allowed: Double = max_price_jump_pct_per_5s.mul(
                time_factor.max(Double::ratio(1, 10)),
            );
            if max_change.gt(allowed) && time_delta_ms < 3000 {
                return Err(
                    PriceRejectReason::SuspiciousJump {
                        change: max_change,
                        time_ms: time_delta_ms,
                        allowed,
                    },
                );
            }
            if update.source == PriceSource::RestSnapshot && last.source
                == PriceSource::WebSocketLive && time_delta_ms < 800 && !fallback_mode {
                return Err(PriceRejectReason::StaleSnapshot);
            }
            match (update.sequence_number, last.sequence_number) {
                (Some(received), Some(previous)) => {
                    if received <= previous {
                        return Err(
                            PriceRejectReason::OutOfSequence { received, last: previous },
                        );
                    }
                },
                _ => {},
            }
        }
        self.last_valid_price = Some(*update);
        self.last_valid_at_ms = update.received_at_ms;
        Ok(())
    }
}

/// The first update after a reset is accepted, whatever it holds.
pub proof fn law_first_update_is_accepted(
    validator: PriceValidator,
    update: PriceUpdate,
    max_price_jump_pct_per_5s: Double,
    fallback_mode: bool,
)
    requires
        validator.last_valid_price is None,
    ensures
        validator.verdict(update, max_price_jump_pct_per_5s, fallback_mode) is None,
{
}

/// An update whose sequence number does not grow is never accepted.
pub proof fn law_sequence_grows(
    validator: PriceValidator,
    update: PriceUpdate,
    max_price_jump_pct_per_5s: Double,
    fallback_mode: bool,
)
    requires
        validator.last_valid_price is Some,
        update.sequence_number is Some,
        validator.last_valid_price->0.sequence_number is Some,
        update.sequence_number->0 <= validator.last_valid_price->0.sequence_number->0,
    ensures
        validator.verdict(update, max_price_jump_pct_per_5s, fallback_mode) is Some,
{
}

/// Three seconds after the last price no change is too large and no snapshot is stale:
/// only a sequence number can still stand in the way.
pub proof fn law_jumps_pass_after_three_seconds(
    validator: PriceValidator,
    update: PriceUpdate,
    max_price_jump_pct_per_5s: Double,
    fallback_mode: bool,
)
    requires
        update.received_at_ms >= validator.last_valid_at_ms + 3000,
    ensures
        ({
            let verdict = validator.verdict(update, max_price_jump_pct_per_5s, fallback_mode);
            &&& verdict is Some ==> verdict->0 is OutOfSequence
            &&& update.sequence_number is None ==> verdict is None
        }),
{
}

/// Why an update was rejected is so: a jump is a change of one of the two prices beyond what
/// is allowed, within three seconds; a stale snapshot is one that came within 800
/// milliseconds of a live price, outside the fallback; and a sequence number did not grow.
pub proof fn law_rejection_is_earned(
    validator: PriceValidator,
    update: PriceUpdate,
    max_price_jump_pct_per_5s: Double,
    fallback_mode: bool,
)
    requires
        validator.last_valid_price is Some,
        validator.last_valid_at_ms <= update.received_at_ms,
        update.yes_price.is_finite(),
        update.no_price.is_finite(),
        validator.last_valid_price->0.yes_price.is_finite(),
        validator.last_valid_price->0.no_price.is_finite(),
        max_price_jump_pct_per_5s.is_finite(),
        max_price_jump_pct_per_5s.value() >= 0,
    ensures
        ({
            let last = validator.last_valid_price->0;
            let waited = update.received_at_ms - validator.last_valid_at_ms;
            let yes = update.yes_price.sub(last.yes_price).size();
            let no = update.no_price.sub(last.no_price).size();
            match validator.verdict(update, max_price_jump_pct_per_5s, fallback_mode) {
                Some(PriceRejectReason::SuspiciousJump { change, time_ms, allowed }) => {
                    &&& waited < 3000
                    &&& time_ms == waited
                    &&& change.value() == if yes >= no {
                        yes
                    } else {
                        no
                    }
                    &&& change.value() > allowed.value() >= 0
                    &&& allowed.value() <= max_price_jump_pct_per_5s.value()
                },
                Some(PriceRejectReason::StaleSnapshot) => {
                    &&& waited < 800
                    &&& !fallback_mode
                    &&& update.source == PriceSource::RestSnapshot
                    &&& last.source == PriceSource::WebSocketLive
                    &&& {
                        let allowed = allowed_change(waited as u64, max_price_jump_pct_per_5s);
                        yes <= allowed.value() && no <= allowed.value()
                    }
                },
                Some(PriceRejectReason::OutOfSequence { received, last: previous }) => {
                    &&& update.sequence_number == Some(received)
                    &&& last.sequence_number == Some(previous)
                    &&& received <= previous
                    &&& update.source == PriceSource::RestSnapshot && last.source
                        == PriceSource::WebSocketLive ==> waited >= 800 || fallback_mode
                },
                None => {
                    let allowed = allowed_change(waited as u64, max_price_jump_pct_per_5s).value();
                    &&& waited < 3000 ==> yes <= allowed && no <= allowed
                    &&& update.source == PriceSource::RestSnapshot && last.source
                        == PriceSource::WebSocketLive ==> waited >= 800 || fallback_mode
                    &&& update.sequence_number is Some && last.sequence_number is Some
                        ==> update.sequence_number->0 > last.sequence_number->0
                },
            }
        }),
{
    reveal(Double::spec_lt);
    reveal(Double::spec_abs);
    assert(magnitude(0) == 0);
    let last = validator.last_valid_price->0;
    let waited = (update.received_at_ms - validator.last_valid_at_ms) as u64;
    law_difference_has_a_sign(update.yes_price, last.yes_price);
    law_difference_has_a_sign(update.no_price, last.no_price);
    law_more_time_allows_more(waited, waited, max_price_jump_pct_per_5s);
}

/// An unchanged price is never a jump, whatever is allowed; and a live price or one in
/// fallback is never a stale snapshot.
pub proof fn law_unchanged_live_price_passes(
    validator: PriceValidator,
    update: PriceUpdate,
    max_price_jump_pct_per_5s: Double,
    fallback_mode: bool,
)
    requires
        validator.last_valid_price is Some,
        update.yes_price.is_finite(),
        update.no_price.is_finite(),
        update.yes_price == validator.last_valid_price->0.yes_price,
        update.no_price == validator.last_valid_price->0.no_price,
        max_price_jump_pct_per_5s.is_finite(),
        max_price_jump_pct_per_5s.value() >= 0,
        update.source == PriceSource::WebSocketLive || fallback_mode,
        update.sequence_number is Some && validator.last_valid_price->0.sequence_number is Some
            ==> update.sequence_number->0 > validator.last_valid_price->0.sequence_number->0,
    ensures
        validator.verdict(update, max_price_jump_pct_per_5s, fallback_mode) is None,
{
    reveal(Double::spec_lt);
    reveal(Double::spec_abs);
    assert(magnitude(0) == 0);
    law_difference_has_a_sign(update.yes_price, update.yes_price);
    law_difference_has_a_sign(update.no_price, update.no_price);
    let t = elapsed_ms(update.received_at_ms, validator.last_valid_at_ms);
    law_more_time_allows_more(t, t, max_price_jump_pct_per_5s);
}

/// The change that is allowed grows with the time passed, from a tenth of the limit up to the
/// limit, which five seconds reach.
pub proof fn law_more_time_allows_more(shorter: u64, longer: u64, max_per_5s: Double)
    requires
        shorter <= longer,
        max_per_5s.is_finite(),
        max_per_5s.value() >= 0,
    ensures
        !allowed_change(shorter, max_per_5s).is_nan(),
        0 <= allowed_change(shorter, max_per_5s).value() <= allowed_change(
            longer,
            max_per_5s,
        ).value() <= max_per_5s.value(),
        allowed_change(0, max_per_5s) == max_per_5s.mul(Double::ratio(1, 10)),
        longer >= 5000 ==> allowed_change(longer, max_per_5s).value() == max_per_5s.value(),
{
    reveal(Double::spec_lt);
    assert(magnitude(0) == 0);
    lemma_one();
    lemma_pow2_pos(1074);
    let five = Double::from_u64(5000);
    let tenth = Double::ratio(1, 10);
    let one = Double::one();
    law_ratio_up_to_one(1, 10);
    law_ratio_is_above_zero(1, 10);
    law_integer_is_a_number(5000);
    law_integer_is_a_number(0);
    law_integer_is_a_number(shorter);
    law_integer_is_a_number(longer);
    law_integers_keep_order(shorter, longer);
    law_quotient_keeps_order(Double::from_u64(shorter), Double::from_u64(longer), five);
    law_quotient_keeps_sign(Double::from_u64(shorter), five);
    law_quotient_keeps_sign(Double::from_u64(0), five);
    law_quotient_shrinks(Double::from_u64(shorter), five);
    law_quotient_shrinks(Double::from_u64(longer), five);
    law_quotient_shrinks(Double::from_u64(0), five);
    let a = Double::from_u64(shorter).div(five).min(one).max(tenth);
    let b = Double::from_u64(longer).div(five).min(one).max(tenth);
    lemma_share_is_finite(tenth);
    law_product_grows(max_per_5s, a, b);
    law_product_grows(max_per_5s, b, one);
    law_product_with_one(max_per_5s);
    if longer >= 5000 {
        law_integers_keep_order(5000, longer);
        law_quotient_keeps_order(five, Double::from_u64(longer), five);
        law_self_quotient_is_one(five);
        if Double::from_u64(longer).div(five).value() == one.value() {
            law_value_determines_number(Double::from_u64(longer).div(five), one);
        }
    }
}

/// The time between two times is their distance, and none where the second comes first.
pub proof fn law_elapsed_time_is_the_distance(now_ms: u64, then_ms: u64)
    ensures
        then_ms <= now_ms ==> then_ms + elapsed_ms(now_ms, then_ms) == now_ms,
        now_ms <= then_ms ==> elapsed_ms(now_ms, then_ms) == 0,
{
}

} // verus!
