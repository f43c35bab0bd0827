//! How far the market is expected to reprice, and how sure that is.
use vstd::prelude::*;
use vstd::arithmetic::power2::{
    pow2, lemma_pow2_adds, lemma_pow2_pos, lemma_pow2_unfold, lemma2_to64_rest,
};

use crate::config::DivergenceConfig;
use crate::market_data::state::BtcState;
use crate::numeric::Double;
use crate::numeric::arithmetic::one_in_units;
use crate::numeric::order::{
    law_difference_has_a_sign, law_nearest_exists, law_product_grows, law_product_keeps_order,
    law_product_keeps_sign, law_product_with_fraction, law_product_with_one,
    law_quotient_keeps_order, law_quotient_keeps_sign, law_ratio_is_above_zero,
    law_ratio_up_to_one, law_ratios_keep_order, law_rounding_keeps_doubles,
    law_rounding_keeps_order, law_self_quotient_is_one, law_self_ratio_is_one,
    law_sum_commutes, law_sum_is_bounded, law_sum_keeps_order, law_sum_of_one_value,
    law_sum_rounds_to_one, law_sum_with_zero, law_sums_grow, law_value_determines_number,
    law_value_determines_size, lemma_one, lemma_ratio_is, lemma_share_is_finite, lemma_signums,
    lemma_sum_is_not_negative, lemma_zero_over,
};
use crate::numeric::rounding::{lemma_magnitude_increases, magnitude, nearest};
use crate::time::{millis_of, now_millis};

verus! {

/// What an estimate is made from.
pub struct ProbabilityInput {
    pub market_id: String,
    pub current_yes_price: Double,
    pub current_no_price: Double,
    pub btc_state: BtcState,
    pub time_remaining_secs: i64,
    pub spread: Double,
}

/// An estimate of a market's repricing.
#[derive(Debug)]
pub struct ProbabilityEstimate {
    pub market_id: String,
    pub divergence_score: Double,
    pub expected_repricing: Double,
    pub confidence: Double,
    pub computed_at_ms: u64,
    pub velocity_component: Double,
    pub delta_component: Double,
    pub spread_component: Double,
    pub time_component: Double,
}

/// A size in proportion to its scale, at most one; zero where the scale is not
/// positive.
pub open spec fn scaled(x: Double, scale: Double) -> Double {
    if scale.gt(Double::zero()) {
        x.abs().div(scale).min(Double::one())
    } else {
        Double::zero()
    }
}

/// How far BTC has moved away from the market.
pub open spec fn divergence_of(velocity_score: Double, delta_score: Double) -> Double {
    velocity_score.mul(Double::ratio(55, 100)).add(delta_score.mul(Double::ratio(45, 100)))
}

/// Volume that goes against the price counts half.
pub open spec fn delta_component_of(
    delta_score: Double,
    volume_delta: Double,
    price_velocity: Double,
) -> Double {
    if volume_delta.signum().equals(price_velocity.signum()) {
        delta_score
    } else {
        delta_score.mul(Double::ratio(5, 10))
    }
}

/// One less the share of the spread in its limit, at least zero.
pub open spec fn spread_component_of(spread: Double, max_spread: Double) -> Double {
    if max_spread.gt(Double::zero()) {
        Double::one().sub(spread.div(max_spread)).max(Double::zero())
    } else {
        Double::zero()
    }
}

/// The middle of a window counts most.
pub open spec fn time_component_of(time_remaining_secs: i64) -> Double {
    if 90 <= time_remaining_secs <= 240 {
        Double::one()
    } else if 60 <= time_remaining_secs < 90 {
        Double::ratio(7, 10)
    } else if 240 < time_remaining_secs <= 270 {
        Double::ratio(8, 10)
    } else {
        Double::ratio(3, 10)
    }
}

/// The weighted sum of the four components, held between zero and one.
pub open spec fn confidence_of(
    velocity: Double,
    delta: Double,
    spread: Double,
    time: Double,
) -> Double {
    velocity.mul(Double::ratio(35, 100)).add(delta.mul(Double::ratio(35, 100))).add(
        spread.mul(Double::ratio(15, 100)),
    ).add(time.mul(Double::ratio(15, 100))).clamp(Double::zero(), Double::one())
}

/// The estimate that an input gives at a time. The expected repricing, a share of its
/// bound, is held between zero and one.
pub open spec fn estimate_of(
    input: ProbabilityInput,
    config: DivergenceConfig,
    now_ms: u64,
) -> ProbabilityEstimate {
    let velocity_score = scaled(input.btc_state.price_velocity, config.velocity_scale);
    let delta_score = scaled(input.btc_state.volume_delta, config.delta_scale);
    let divergence_score = divergence_of(velocity_score, delta_score);
    let delta_component = delta_component_of(
        delta_score,
        input.btc_state.volume_delta,
        input.btc_state.price_velocity,
    );
    let spread_component = spread_component_of(input.spread, config.max_spread);
    let time_component = time_component_of(input.time_remaining_secs);
    ProbabilityEstimate {
        market_id: input.market_id,
        divergence_score,
        expected_repricing: divergence_score.mul(config.max_expected_repricing).clamp(
            Double::zero(),
            Double::one(),
        ),
        confidence: confidence_of(
            velocity_score,
            delta_component,
            spread_component,
            time_component,
        ),
        computed_at_ms: now_ms,
        velocity_component: velocity_score,
        delta_component,
        spread_component,
        time_component,
    }
}

fn share_of(x: Double, scale: Double) -> (r: Double)
    ensures
        r == scaled(x, scale),
{
    if scale.gt(Double::zero()) {
        x.abs().div(scale).min(Double::one())
    } else {
        Double::zero()
    }
}

/// Estimates the repricing of a market at a time.
pub fn compute_estimate_at(input: &ProbabilityInput, config: &DivergenceConfig, now_ms: u64) -> (r:
    ProbabilityEstimate)
    ensures
        r == estimate_of(*input, *config, now_ms),
{
    let velocity_score: Double = share_of(input.btc_state.price_velocity, config.velocity_scale);
    let delta_score: Double = share_of(input.btc_state.volume_delta, config.delta_scale);
    let divergence_score: Double = velocity_score.mul(Double::ratio(55, 100)).add(
        delta_score.mul(Double::ratio(45, 100)),
    );
    let expected_repricing: Double = divergence_score.mul(config.max_expected_repricing).clamp(
        Double::zero(),
        Double::one(),
    );
    let aligned: bool = input.btc_state.volume_delta.signum().equals(
        input.btc_state.price_velocity.signum(),
    );
    let delta_component: Double = if aligned {
        delta_score
    } else {
        delta_score.mul(Double::ratio(5, 10))
    };
    let spread_component: Double = if config.max_spread.gt(Double::zero()) {
        Double::one().sub(input.spread.div(config.max_spread)).max(Double::zero())
    } else {
        Double::zero()
    };
    let secs: i64 = input.time_remaining_secs;
    let time_component: Double = if secs >= 90 && secs <= 240 {
        Double::one()
    } else if secs >= 60 && secs < 90 {
        Double::ratio(7, 10)
    } else if secs > 240 && secs <= 270 {
        Double::ratio(8, 10)
    } else {
        Double::ratio(3, 10)
    };
    let confidence: Double = velocity_score.mul(Double::ratio(35, 100)).add(
        delta_component.mul(Double::ratio(35, 100)),
    ).add(spread_component.mul(Double::ratio(15, 100))).add(
        time_component.mul(Double::ratio(15, 100)),
    ).clamp(Double::zero(), Double::one());
    ProbabilityEstimate {
        market_id: input.market_id.clone(),
        divergence_score,
        expected_repricing,
        confidence,
        computed_at_ms: now_ms,
        velocity_component: velocity_score,
        delta_component,
        spread_component,
        time_component,
    }
}

/// Estimates the repricing of a market now.
pub fn compute_estimate(input: &ProbabilityInput, config: &DivergenceConfig) -> (r:
    ProbabilityEstimate)
    ensures
        exists|reading: Option<(u64, u32)>|
            r == estimate_of(*input, *config, #[trigger] millis_of(reading)),
{
    compute_estimate_at(input, config, now_millis())
}

proof fn lemma_scaled(x: Double, scale: Double)
    ensures
        scaled(x, scale).in_unit_range(),
{
    reveal(Double::spec_lt);
    reveal(Double::spec_div);
    reveal(Double::spec_abs);
    lemma_one();
    assert(magnitude(0) == 0);
    law_nearest_exists(x.abs().size() * one_in_units(), scale.size());
}

/// The weights of the divergence score add up to one.
proof fn lemma_divergence_weights()
    ensures
        Double::ratio(55, 100).is_finite(),
        Double::ratio(45, 100).is_finite(),
        !Double::ratio(55, 100).negative(),
        !Double::ratio(45, 100).negative(),
        Double::ratio(55, 100).add(Double::ratio(45, 100)).in_unit_range(),
{
    lemma2_to64_rest();
    let a: nat = 4953959590107546;
    let b: nat = 8106479329266893;
    lemma_ratio_is(55, 100, a, 1021, 53);
    lemma_ratio_is(45, 100, b, 1020, 54);
    lemma_pow2_unfold(1021);
    lemma_pow2_adds(54, 1020);
    lemma_pow2_pos(1020);
    let unit = pow2(1020);
    assert(a * (2 * unit) + b * unit == 18014398509481985 * unit) by (nonlinear_arith)
        requires
            a == 4953959590107546nat,
            b == 8106479329266893nat,
    ;
    law_sum_rounds_to_one(Double::ratio(55, 100), Double::ratio(45, 100));
}

/// The divergence score lies between zero and one.
pub proof fn law_divergence_score_is_a_share(
    input: ProbabilityInput,
    config: DivergenceConfig,
    now_ms: u64,
)
    ensures
        estimate_of(input, config, now_ms).divergence_score.in_unit_range(),
{
    let v = scaled(input.btc_state.price_velocity, config.velocity_scale);
    let d = scaled(input.btc_state.volume_delta, config.delta_scale);
    lemma_scaled(input.btc_state.price_velocity, config.velocity_scale);
    lemma_scaled(input.btc_state.volume_delta, config.delta_scale);
    lemma_divergence_weights();
    law_product_with_fraction(v, Double::ratio(55, 100));
    law_product_with_fraction(d, Double::ratio(45, 100));
    law_sum_is_bounded(
        v.mul(Double::ratio(55, 100)),
        d.mul(Double::ratio(45, 100)),
        Double::ratio(55, 100),
        Double::ratio(45, 100),
    );
}

/// Of a finite bound, the expected repricing lies between zero and one, and does not pass
/// a bound that is not less than zero.
pub proof fn law_repricing_is_within_its_bound(
    input: ProbabilityInput,
    config: DivergenceConfig,
    now_ms: u64,
)
    requires
        config.max_expected_repricing.is_finite(),
    ensures
        ({
            let r = estimate_of(input, config, now_ms).expected_repricing;
            &&& r.is_share()
            &&& Double::zero().le(config.max_expected_repricing) ==> r.le(
                config.max_expected_repricing,
            )
        }),
{
    reveal(Double::spec_lt);
    reveal(Double::spec_equals);
    law_divergence_score_is_a_share(input, config, now_ms);
    lemma_one();
    assert(magnitude(0) == 0);
    let score = estimate_of(input, config, now_ms).divergence_score;
    law_product_with_fraction(score, config.max_expected_repricing);
    lemma_held_to_shares(score.mul(config.max_expected_repricing));
}

/// The confidence lies between zero and one.
pub proof fn law_confidence_is_a_share(
    input: ProbabilityInput,
    config: DivergenceConfig,
    now_ms: u64,
)
    ensures
        estimate_of(input, config, now_ms).confidence.is_share(),
{
    let e = estimate_of(input, config, now_ms);
    let w = Double::ratio(35, 100);
    let x = Double::ratio(15, 100);
    let score = scaled(input.btc_state.volume_delta, config.delta_scale);
    lemma_scaled(input.btc_state.price_velocity, config.velocity_scale);
    lemma_scaled(input.btc_state.volume_delta, config.delta_scale);
    law_ratio_up_to_one(5, 10);
    law_product_with_fraction(score, Double::ratio(5, 10));
    law_ratio_up_to_one(7, 10);
    law_ratio_up_to_one(8, 10);
    law_ratio_up_to_one(3, 10);
    lemma_one();
    assert(e.spread_component.value() >= 0 && !e.spread_component.is_nan()) by {
        reveal(Double::spec_lt);
        assert(magnitude(0) == 0);
    }
    lemma_weight(35);
    lemma_weight(15);
    lemma_product_is_not_negative(e.velocity_component, w);
    lemma_product_is_not_negative(e.delta_component, w);
    lemma_product_is_not_negative(e.spread_component, x);
    lemma_product_is_not_negative(e.time_component, x);
    let a = e.velocity_component.mul(w);
    let b = e.delta_component.mul(w);
    let c = e.spread_component.mul(x);
    let d = e.time_component.mul(x);
    lemma_sum_is_not_negative(a, b);
    lemma_sum_is_not_negative(a.add(b), c);
    lemma_sum_is_not_negative(a.add(b).add(c), d);
    lemma_held_to_shares(a.add(b).add(c).add(d));
}

/// A number that is held between zero and one.
proof fn lemma_held_to_shares(x: Double)
    requires
        !x.is_nan(),
    ensures
        x.clamp(Double::zero(), Double::one()).is_share(),
{
    reveal(Double::spec_lt);
    reveal(Double::spec_equals);
    lemma_one();
    lemma_pow2_pos(1074);
    assert(magnitude(0) == 0);
}

/// A weight in per cent is finite and above zero.
proof fn lemma_weight(percent: u64)
    requires
        0 < percent <= 100,
    ensures
        Double::ratio(percent, 100).is_finite(),
        Double::ratio(percent, 100).value() > 0,
{
    reveal(Double::spec_ratio);
    law_ratio_up_to_one(percent, 100);
    lemma2_to64_rest();
    lemma_pow2_adds(60, 1014);
    lemma_pow2_pos(1014);
    let n = percent as nat * one_in_units();
    assert(n >= 100) by (nonlinear_arith)
        requires
            n == percent as nat * one_in_units(),
            percent > 0,
            one_in_units() >= 100,
    ;
    law_nearest_exists(n, 100);
    law_rounding_keeps_doubles(1);
    assert(magnitude(1) == 1);
    assert(magnitude(0) == 0);
    law_rounding_keeps_order(1, 1, n, 100);
    lemma_magnitude_increases(0, nearest(n, 100));
}

proof fn lemma_product_is_not_negative(a: Double, w: Double)
    requires
        !a.is_nan(),
        a.value() >= 0,
        w.is_finite(),
        w.value() > 0,
    ensures
        !a.mul(w).is_nan(),
        a.mul(w).value() >= 0,
{
    assert(magnitude(0) == 0);
    law_product_keeps_order(Double::zero(), a, w);
    law_product_with_fraction(Double::zero(), w);
    lemma_one();
    reveal(Double::spec_mul);
    assert(Double::zero().mul(w).value() >= 0);
}

/// Confidence grows with each of its components.
proof fn lemma_confidence_grows(
    v: (Double, Double),
    d: (Double, Double),
    s: (Double, Double),
    t: (Double, Double),
)
    requires
        is_ordered(v),
        is_ordered(d),
        is_ordered(s),
        is_ordered(t),
    ensures
        confidence_of(v.0, d.0, s.0, t.0).value() <= confidence_of(v.1, d.1, s.1, t.1).value(),
{
    reveal(Double::spec_lt);
    assert(magnitude(0) == 0);
    lemma_one();
    lemma_pow2_pos(1074);
    let w = Double::ratio(35, 100);
    let x = Double::ratio(15, 100);
    lemma_weight(35);
    lemma_weight(15);
    law_product_keeps_order(v.0, v.1, w);
    law_product_keeps_order(d.0, d.1, w);
    law_product_keeps_order(s.0, s.1, x);
    law_product_keeps_order(t.0, t.1, x);
    lemma_product_is_not_negative(v.0, w);
    lemma_product_is_not_negative(d.0, w);
    lemma_product_is_not_negative(s.0, x);
    lemma_product_is_not_negative(t.0, x);
    law_sums_grow(v.0.mul(w), v.1.mul(w), d.0.mul(w), d.1.mul(w));
    let (a, b) = (v.0.mul(w).add(d.0.mul(w)), v.1.mul(w).add(d.1.mul(w)));
    law_sums_grow(a, b, s.0.mul(x), s.1.mul(x));
    law_sums_grow(a.add(s.0.mul(x)), b.add(s.1.mul(x)), t.0.mul(x), t.1.mul(x));
}

/// Two numbers, not below zero and in order.
spec fn is_ordered(p: (Double, Double)) -> bool {
    !p.0.is_nan() && !p.1.is_nan() && 0 <= p.0.value() <= p.1.value()
}

/// The components of an estimate are numbers that are not below zero.
proof fn lemma_components(input: ProbabilityInput, config: DivergenceConfig, now_ms: u64)
    ensures
        ({
            let e = estimate_of(input, config, now_ms);
            &&& is_ordered((e.velocity_component, e.velocity_component))
            &&& is_ordered((e.delta_component, e.delta_component))
            &&& is_ordered((e.spread_component, e.spread_component))
            &&& is_ordered((e.time_component, e.time_component))
        }),
{
    let score = scaled(input.btc_state.volume_delta, config.delta_scale);
    lemma_scaled(input.btc_state.price_velocity, config.velocity_scale);
    lemma_scaled(input.btc_state.volume_delta, config.delta_scale);
    law_ratio_up_to_one(5, 10);
    law_product_with_fraction(score, Double::ratio(5, 10));
    law_ratio_up_to_one(7, 10);
    law_ratio_up_to_one(8, 10);
    law_ratio_up_to_one(3, 10);
    lemma_one();
    reveal(Double::spec_lt);
    assert(magnitude(0) == 0);
}

/// Volume that goes with the price counts in full, by its share in its scale up to one, and
/// volume that goes against it counts half; so of two inputs that differ in the sign of the
/// volume delta alone, the one whose volume goes with the price is estimated with no less
/// confidence. The divergence and the repricing do not depend on that sign.
pub proof fn law_volume_with_the_price_counts_more(
    with: ProbabilityInput,
    against: ProbabilityInput,
    config: DivergenceConfig,
    now_ms: u64,
)
    requires
        with.btc_state.price_velocity == against.btc_state.price_velocity,
        with.spread == against.spread,
        with.time_remaining_secs == against.time_remaining_secs,
        with.btc_state.price_velocity.is_finite(),
        with.btc_state.price_velocity.value() != 0,
        with.btc_state.volume_delta.is_finite(),
        against.btc_state.volume_delta.is_finite(),
        with.btc_state.volume_delta.value() != 0,
        against.btc_state.volume_delta.value() == -with.btc_state.volume_delta.value(),
        (with.btc_state.volume_delta.value() > 0) == (with.btc_state.price_velocity.value() > 0),
        config.delta_scale.is_finite(),
        config.delta_scale.value() > 0,
    ensures
        ({
            let w = estimate_of(with, config, now_ms);
            let a = estimate_of(against, config, now_ms);
            let size = with.btc_state.volume_delta.abs();
            &&& size.value() >= config.delta_scale.value() ==> w.delta_component == Double::one()
            &&& size.value() < config.delta_scale.value() ==> w.delta_component == size.div(
                config.delta_scale,
            )
            &&& a.delta_component == w.delta_component.mul(Double::ratio(5, 10))
            &&& a.delta_component.value() <= w.delta_component.value()
            &&& a.confidence.value() <= w.confidence.value()
            &&& a.divergence_score == w.divergence_score
            &&& a.expected_repricing == w.expected_repricing
        }),
{
    assert(magnitude(0) == 0);
    let (x, y) = (with.btc_state.volume_delta, against.btc_state.volume_delta);
    let v = with.btc_state.price_velocity;
    law_value_determines_size(x, y);
    assert(x.abs() == y.abs() && x.abs().value() == x.size()) by {
        reveal(Double::spec_abs);
    }
    lemma_signums(x, v);
    lemma_signums(y, v);
    lemma_scaled_share(x, config.delta_scale);
    lemma_scaled(x, config.delta_scale);
    let score = scaled(x, config.delta_scale);
    law_ratio_up_to_one(5, 10);
    law_product_with_fraction(score, Double::ratio(5, 10));
    lemma_one();
    lemma_share_is_finite(score);
    lemma_share_is_finite(Double::ratio(5, 10));
    law_product_grows(score, Double::ratio(5, 10), Double::one());
    law_product_with_one(score);
    let w = estimate_of(with, config, now_ms);
    let a = estimate_of(against, config, now_ms);
    lemma_components(with, config, now_ms);
    lemma_components(against, config, now_ms);
    lemma_confidence_grows(
        (a.velocity_component, w.velocity_component),
        (a.delta_component, w.delta_component),
        (a.spread_component, w.spread_component),
        (a.time_component, w.time_component),
    );
}

/// A share in a scale, by value.
proof fn lemma_scaled_share(x: Double, scale: Double)
    requires
        x.is_finite(),
        scale.is_finite(),
        scale.value() > 0,
    ensures
        x.size() >= scale.value() ==> scaled(x, scale) == Double::one(),
        x.size() < scale.value() ==> scaled(x, scale) == x.abs().div(scale),
        x.size() == 0 ==> scaled(x, scale).value() == 0,
{
    reveal(Double::spec_lt);
    reveal(Double::spec_abs);
    assert(magnitude(0) == 0);
    lemma_one();
    law_self_quotient_is_one(scale);
    let size = x.abs();
    law_quotient_keeps_sign(size, scale);
    if size.value() >= scale.value() {
        law_quotient_keeps_order(scale, size, scale);
        if size.div(scale).value() == Double::one().value() {
            lemma_pow2_pos(1074);
            law_value_determines_number(size.div(scale), Double::one());
        }
    } else {
        law_quotient_keeps_order(size, scale, scale);
    }
}

/// A faster move of the price, in the same direction and all else equal, diverges no less, is
/// expected to reprice no less, and is estimated with no less confidence.
pub proof fn law_faster_move_is_estimated_higher(
    slow: ProbabilityInput,
    fast: ProbabilityInput,
    config: DivergenceConfig,
    now_ms: u64,
)
    requires
        slow.btc_state.volume_delta == fast.btc_state.volume_delta,
        slow.spread == fast.spread,
        slow.time_remaining_secs == fast.time_remaining_secs,
        slow.btc_state.price_velocity.is_finite(),
        fast.btc_state.price_velocity.is_finite(),
        slow.btc_state.price_velocity.negative() == fast.btc_state.price_velocity.negative(),
        slow.btc_state.price_velocity.size() <= fast.btc_state.price_velocity.size(),
        config.velocity_scale.is_finite(),
        config.velocity_scale.value() > 0,
        config.max_expected_repricing.is_finite(),
        config.max_expected_repricing.value() > 0,
    ensures
        ({
            let s = estimate_of(slow, config, now_ms);
            let f = estimate_of(fast, config, now_ms);
            &&& s.velocity_component.value() <= f.velocity_component.value()
            &&& s.divergence_score.value() <= f.divergence_score.value()
            &&& s.expected_repricing.value() <= f.expected_repricing.value()
            &&& s.confidence.value() <= f.confidence.value()
        }),
{
    reveal(Double::spec_lt);
    reveal(Double::spec_abs);
    assert(magnitude(0) == 0);
    lemma_one();
    lemma_pow2_pos(1074);
    let s = estimate_of(slow, config, now_ms);
    let f = estimate_of(fast, config, now_ms);
    let (x, y) = (slow.btc_state.price_velocity, fast.btc_state.price_velocity);
    lemma_components(slow, config, now_ms);
    lemma_components(fast, config, now_ms);
    law_quotient_keeps_order(x.abs(), y.abs(), config.velocity_scale);
    lemma_weight(55);
    lemma_weight(45);
    let delta = scaled(slow.btc_state.volume_delta, config.delta_scale);
    lemma_scaled(slow.btc_state.volume_delta, config.delta_scale);
    lemma_divergence_grows(
        (s.velocity_component, f.velocity_component),
        (delta, delta),
        config.max_expected_repricing,
    );
    assert(s.delta_component == f.delta_component) by {
        if slow.btc_state.volume_delta.is_nan() {
            reveal(Double::spec_equals);
        } else {
            lemma_signums(slow.btc_state.volume_delta, x);
            lemma_signums(slow.btc_state.volume_delta, y);
        }
    }
    lemma_confidence_grows(
        (s.velocity_component, f.velocity_component),
        (s.delta_component, f.delta_component),
        (s.spread_component, f.spread_component),
        (s.time_component, f.time_component),
    );
}

/// Divergence, and the repricing it makes expected, grow with both scores.
proof fn lemma_divergence_grows(v: (Double, Double), d: (Double, Double), max: Double)
    requires
        is_ordered(v),
        is_ordered(d),
        max.is_finite(),
        max.value() > 0,
    ensures
        ({
            let (a, b) = (divergence_of(v.0, d.0), divergence_of(v.1, d.1));
            &&& is_ordered((a, b))
            &&& a.mul(max).clamp(Double::zero(), Double::one()).value() <= b.mul(max).clamp(
                Double::zero(),
                Double::one(),
            ).value()
        }),
{
    reveal(Double::spec_lt);
    assert(magnitude(0) == 0);
    lemma_one();
    lemma_pow2_pos(1074);
    let w = Double::ratio(55, 100);
    let x = Double::ratio(45, 100);
    lemma_weight(55);
    lemma_weight(45);
    law_product_keeps_order(v.0, v.1, w);
    law_product_keeps_order(d.0, d.1, x);
    lemma_product_is_not_negative(v.0, w);
    lemma_product_is_not_negative(d.0, x);
    law_sums_grow(v.0.mul(w), v.1.mul(w), d.0.mul(x), d.1.mul(x));
    law_product_keeps_order(divergence_of(v.0, d.0), divergence_of(v.1, d.1), max);
}

/// More volume on one side, all else equal, diverges no less, is expected to reprice no less,
/// and is estimated with no less confidence.
pub proof fn law_more_volume_is_estimated_higher(
    less: ProbabilityInput,
    more: ProbabilityInput,
    config: DivergenceConfig,
    now_ms: u64,
)
    requires
        less.btc_state.price_velocity == more.btc_state.price_velocity,
        less.spread == more.spread,
        less.time_remaining_secs == more.time_remaining_secs,
        less.btc_state.volume_delta.is_finite(),
        more.btc_state.volume_delta.is_finite(),
        less.btc_state.volume_delta.negative() == more.btc_state.volume_delta.negative(),
        less.btc_state.volume_delta.size() <= more.btc_state.volume_delta.size(),
        config.delta_scale.is_finite(),
        config.delta_scale.value() > 0,
        config.max_expected_repricing.is_finite(),
        config.max_expected_repricing.value() > 0,
    ensures
        ({
            let l = estimate_of(less, config, now_ms);
            let m = estimate_of(more, config, now_ms);
            &&& l.delta_component.value() <= m.delta_component.value()
            &&& l.divergence_score.value() <= m.divergence_score.value()
            &&& l.expected_repricing.value() <= m.expected_repricing.value()
            &&& l.confidence.value() <= m.confidence.value()
        }),
{
    reveal(Double::spec_lt);
    reveal(Double::spec_abs);
    assert(magnitude(0) == 0);
    lemma_one();
    let l = estimate_of(less, config, now_ms);
    let m = estimate_of(more, config, now_ms);
    let (x, y) = (less.btc_state.volume_delta, more.btc_state.volume_delta);
    let v = less.btc_state.price_velocity;
    lemma_components(less, config, now_ms);
    lemma_components(more, config, now_ms);
    law_quotient_keeps_order(x.abs(), y.abs(), config.delta_scale);
    let (a, b) = (scaled(x, config.delta_scale), scaled(y, config.delta_scale));
    lemma_scaled(x, config.delta_scale);
    lemma_scaled(y, config.delta_scale);
    lemma_divergence_grows(
        (l.velocity_component, m.velocity_component),
        (a, b),
        config.max_expected_repricing,
    );
    law_ratio_up_to_one(5, 10);
    law_ratio_is_above_zero(5, 10);
    law_product_keeps_order(a, b, Double::ratio(5, 10));
    if v.is_nan() {
        reveal(Double::spec_equals);
    } else {
        lemma_signums(x, v);
        lemma_signums(y, v);
    }
    lemma_confidence_grows(
        (l.velocity_component, m.velocity_component),
        (l.delta_component, m.delta_component),
        (l.spread_component, m.spread_component),
        (l.time_component, m.time_component),
    );
}

/// A wider spread is estimated with no more confidence; no spread leaves its component
/// whole, and one of the limit or more takes it away.
pub proof fn law_wider_spread_is_less_sure(
    narrow: ProbabilityInput,
    wide: ProbabilityInput,
    config: DivergenceConfig,
    now_ms: u64,
)
    requires
        narrow.btc_state.price_velocity == wide.btc_state.price_velocity,
        narrow.btc_state.volume_delta == wide.btc_state.volume_delta,
        narrow.time_remaining_secs == wide.time_remaining_secs,
        narrow.spread.is_finite(),
        wide.spread.is_finite(),
        narrow.spread.value() <= wide.spread.value(),
        config.max_spread.is_finite(),
        config.max_spread.value() > 0,
    ensures
        ({
            let n = estimate_of(narrow, config, now_ms);
            let w = estimate_of(wide, config, now_ms);
            &&& w.spread_component.value() <= n.spread_component.value()
            &&& w.confidence.value() <= n.confidence.value()
            &&& narrow.spread == Double::zero() ==> n.spread_component == Double::one()
            &&& wide.spread.value() >= config.max_spread.value() ==> w.spread_component.value()
                == 0
        }),
{
    reveal(Double::spec_lt);
    reveal(Double::spec_neg);
    assert(magnitude(0) == 0);
    lemma_one();
    lemma_pow2_pos(1074);
    let n = estimate_of(narrow, config, now_ms);
    let w = estimate_of(wide, config, now_ms);
    let (a, b) = (narrow.spread.div(config.max_spread), wide.spread.div(config.max_spread));
    law_quotient_keeps_order(narrow.spread, wide.spread, config.max_spread);
    law_sum_keeps_order(b.neg(), a.neg(), Double::one());
    law_sum_commutes(a.neg(), Double::one());
    law_sum_commutes(b.neg(), Double::one());
    lemma_components(narrow, config, now_ms);
    lemma_components(wide, config, now_ms);
    lemma_confidence_grows(
        (w.velocity_component, n.velocity_component),
        (w.delta_component, n.delta_component),
        (w.spread_component, n.spread_component),
        (w.time_component, n.time_component),
    );
    if narrow.spread == Double::zero() {
        reveal(Double::spec_div);
        lemma_zero_over(config.max_spread.size());
        assert(0 * one_in_units() == 0);
        assert(a == Double::zero());
        law_sum_with_zero(Double::one());
        law_value_determines_number(Double::one().sub(a), Double::one());
    }
    if wide.spread.value() >= config.max_spread.value() {
        law_quotient_keeps_order(config.max_spread, wide.spread, config.max_spread);
        law_self_quotient_is_one(config.max_spread);
        law_sum_keeps_order(b.neg(), Double::one().neg(), Double::one());
        law_difference_has_a_sign(Double::one(), Double::one());
        law_sum_commutes(Double::one().neg(), Double::one());
    }
}

/// The middle of a window is the surest time, then its early part, then its late part, and
/// its ends are the least sure.
pub proof fn law_middle_of_the_window_is_surest(
    middle: ProbabilityInput,
    early: ProbabilityInput,
    late: ProbabilityInput,
    end: ProbabilityInput,
    config: DivergenceConfig,
    now_ms: u64,
)
    requires
        90 <= middle.time_remaining_secs <= 240,
        240 < early.time_remaining_secs <= 270,
        60 <= late.time_remaining_secs < 90,
        end.time_remaining_secs < 60 || end.time_remaining_secs > 270,
    ensures
        ({
            let m = estimate_of(middle, config, now_ms).time_component.value();
            let e = estimate_of(early, config, now_ms).time_component.value();
            let l = estimate_of(late, config, now_ms).time_component.value();
            let n = estimate_of(end, config, now_ms).time_component.value();
            m > e > l > n > 0
        }),
{
    lemma_one();
    lemma_ratios_apart(10, 8);
    lemma_ratios_apart(8, 7);
    lemma_ratios_apart(7, 3);
    law_ratio_is_above_zero(3, 10);
    law_self_ratio_is_one(10);
}

/// Tenths are in order.
proof fn lemma_ratios_apart(larger: u64, smaller: u64)
    requires
        smaller < larger <= 10,
    ensures
        Double::ratio(smaller, 10).value() < Double::ratio(larger, 10).value(),
{
    law_ratios_keep_order(smaller, larger, 10);
}

/// A move or a volume that fills its scale, alone, diverges by its weight: the price by 55
/// hundredths, the volume by 45.
pub proof fn law_price_weighs_more_than_volume(
    input: ProbabilityInput,
    config: DivergenceConfig,
    now_ms: u64,
)
    requires
        input.btc_state.price_velocity.is_finite(),
        input.btc_state.volume_delta.is_finite(),
        config.velocity_scale.is_finite(),
        config.velocity_scale.value() > 0,
        config.delta_scale.is_finite(),
        config.delta_scale.value() > 0,
    ensures
        ({
            let v = input.btc_state.price_velocity;
            let d = input.btc_state.volume_delta;
            let score = estimate_of(input, config, now_ms).divergence_score;
            &&& v.size() >= config.velocity_scale.value() && d.size() == 0 ==> score.value()
                == Double::ratio(55, 100).value()
            &&& v.size() == 0 && d.size() >= config.delta_scale.value() ==> score.value()
                == Double::ratio(45, 100).value()
            &&& v.size() == 0 && d.size() == 0 ==> score.value() == 0
        }),
{
    assert(magnitude(0) == 0);
    lemma_one();
    lemma_weight(55);
    lemma_weight(45);
    let (v, d) = (input.btc_state.price_velocity, input.btc_state.volume_delta);
    let (a, b) = (scaled(v, config.velocity_scale), scaled(d, config.delta_scale));
    lemma_scaled_share(v, config.velocity_scale);
    lemma_scaled_share(d, config.delta_scale);
    lemma_scaled(v, config.velocity_scale);
    lemma_scaled(d, config.delta_scale);
    law_product_with_one(Double::ratio(55, 100));
    law_product_with_one(Double::ratio(45, 100));
    law_product_keeps_sign(a, Double::ratio(55, 100));
    law_product_keeps_sign(b, Double::ratio(45, 100));
    law_product_with_fraction(a, Double::ratio(55, 100));
    law_product_with_fraction(b, Double::ratio(45, 100));
    law_sum_of_one_value(a.mul(Double::ratio(55, 100)), b.mul(Double::ratio(45, 100)));
}

} // verus!
