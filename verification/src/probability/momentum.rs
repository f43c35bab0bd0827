//! The shift of a market's probability that BTC momentum suggests.
use vstd::prelude::*;
use vstd::arithmetic::power2::{
    pow2, lemma_pow2_adds, lemma_pow2_pos, lemma_pow2_unfold, lemma2_to64_rest,
};

use crate::config::ProbabilityConfig;
use crate::market_data::state::BtcState;
use crate::numeric::Double;
use crate::numeric::arithmetic::one_in_units;
use crate::numeric::order::{
    law_integer_is_a_number, law_nearest_exists,
    law_product_has_no_value, law_product_keeps_order, law_product_with_fraction,
    law_quotient_keeps_order, law_ratio_up_to_one, law_rounding_keeps_doubles,
    law_rounding_keeps_order, law_sum_commutes, law_sum_keeps_order, law_sum_of_one_value,
    law_sum_of_twins_is_exact, law_sum_with_zero, law_value_determines_number, lemma_half,
    lemma_one, lemma_ratio_is, lemma_size_of_two, lemma_small_is_finite, lemma_two,
    lemma_zero_over,
};
use crate::numeric::rounding::{
    lemma_magnitude_increases, lemma_magnitude_of_mantissa, magnitude, nearest, FRACTION,
};

verus! {

#[derive(Clone, Copy, Debug)]
pub struct MomentumResult {
    /// The weighted shift; positive towards YES.
    pub adjustment: Double,
    /// Price velocity, held to one on either side.
    pub momentum_signal: Double,
    /// Volume delta, held to one on either side.
    pub delta_signal: Double,
}

/// The distance between one and the next double.
pub open spec fn epsilon() -> Double {
    Double::ratio(1, 4503599627370496)
}

/// A value mapped from a range to the one from minus one to one, and held to it.
pub open spec fn normalized(value: Double, min: Double, max: Double) -> Double {
    if max.sub(min).abs().lt(epsilon()) {
        Double::zero()
    } else {
        value.sub(min).div(max.sub(min)).mul(Double::from_u64(2)).sub(Double::one()).clamp(
            Double::one().neg(),
            Double::one(),
        )
    }
}

/// Maps a value from a range to the one from minus one to one, and holds it there.
pub fn normalize(value: Double, min: Double, max: Double) -> (r: Double)
    ensures
        r == normalized(value, min, max),
{
    let width: Double = max.sub(min);
    if width.abs().lt(Double::ratio(1, 4503599627370496)) {
        return Double::zero();
    }
    let ratio: Double = value.sub(min).div(width);
    ratio.mul(Double::from_u64(2)).sub(Double::one()).clamp(Double::one().neg(), Double::one())
}

/// The shift that velocity and volume delta suggest. Two dollars a second and half a
/// million of volume saturate the signals, and the weighted sum of the signals is held to
/// one on either side before it is scaled.
pub open spec fn momentum_of(
    price_velocity: Double,
    volume_delta: Double,
    config: ProbabilityConfig,
) -> MomentumResult {
    let momentum_signal = normalized(
        price_velocity,
        Double::from_u64(2).neg(),
        Double::from_u64(2),
    );
    let delta_signal = normalized(
        volume_delta,
        Double::from_u64(500_000).neg(),
        Double::from_u64(500_000),
    );
    let raw = momentum_signal.mul(config.momentum_weight).add(
        delta_signal.mul(config.delta_weight),
    ).clamp(Double::one().neg(), Double::one());
    MomentumResult {
        adjustment: raw.mul(config.max_momentum_adjustment),
        momentum_signal,
        delta_signal,
    }
}

/// Computes the shift of the probability from the state of the BTC market.
pub fn compute_momentum_adjustment(btc: &BtcState, config: &ProbabilityConfig) -> (r:
    MomentumResult)
    ensures
        r == momentum_of(btc.price_velocity, btc.volume_delta, *config),
{
    let two: Double = Double::from_u64(2);
    let half_million: Double = Double::from_u64(500_000);
    let momentum_signal: Double = normalize(btc.price_velocity, two.neg(), two);
    let delta_signal: Double = normalize(btc.volume_delta, half_million.neg(), half_million);
    let raw: Double = momentum_signal.mul(config.momentum_weight).add(
        delta_signal.mul(config.delta_weight),
    ).clamp(Double::one().neg(), Double::one());
    MomentumResult {
        adjustment: raw.mul(config.max_momentum_adjustment),
        momentum_signal,
        delta_signal,
    }
}

/// A normalized value is at most one in size, unless it is not a number.
pub proof fn law_normalized_is_at_most_one(value: Double, min: Double, max: Double)
    ensures
        ({
            let r = normalized(value, min, max);
            !r.is_nan() ==> r.size() <= Double::one().size()
        }),
{
    lemma_one();
    reveal(Double::spec_lt);
    reveal(Double::spec_neg);
    assert(magnitude(0) == 0);
}

/// Normalizing over a range of finite width gives a number for every number.
pub proof fn law_normalized_is_a_number(value: Double, min: Double, max: Double)
    requires
        !value.is_nan(),
        min.is_finite(),
        max.sub(min).is_finite(),
        max.sub(min).pattern() != 0,
    ensures
        !normalized(value, min, max).is_nan(),
{
    reveal(Double::spec_add);
    reveal(Double::spec_neg);
    reveal(Double::spec_div);
    reveal(Double::spec_mul);
    reveal(Double::spec_lt);
    let width = max.sub(min);
    let away = value.sub(min);
    let ratio = away.div(width);
    let two = Double::from_u64(2);
    lemma_two();
    lemma_sum_is_a_number(value, min.neg());
    law_nearest_exists(away.size() * one_in_units(), width.size());
    assert(!ratio.is_nan());
    law_nearest_exists(ratio.size() * two.size(), one_in_units());
    assert(!ratio.mul(two).is_nan());
    lemma_sum_is_a_number(ratio.mul(two), Double::one().neg());
}

/// Normalizing over a range of finite width keeps order, stays between minus one and one,
/// and reaches them at the ends of the range and beyond.
pub proof fn law_normalizing_keeps_order(v1: Double, v2: Double, min: Double, max: Double)
    requires
        v1.le(v2),
        min.is_finite(),
        max.is_finite(),
        max.sub(min).is_finite(),
        max.sub(min).ge(epsilon()),
    ensures
        Double::one().neg().le(normalized(v1, min, max)),
        normalized(v1, min, max).le(normalized(v2, min, max)),
        normalized(v2, min, max).le(Double::one()),
        v1.le(min) ==> normalized(v1, min, max) == Double::one().neg(),
        v2.ge(max) ==> normalized(v2, min, max) == Double::one(),
{
    reveal(Double::spec_lt);
    reveal(Double::spec_equals);
    reveal(Double::spec_neg);
    reveal(Double::spec_abs);
    lemma_epsilon();
    lemma_one();
    lemma_pow2_pos(1074);
    let width = max.sub(min);
    assert(width.abs() == width);
    let p1 = v1.sub(min).div(width).mul(Double::from_u64(2)).sub(Double::one());
    let p2 = v2.sub(min).div(width).mul(Double::from_u64(2)).sub(Double::one());
    lemma_position_keeps_order(v1, v2, min, width);
    if v1.le(min) {
        lemma_position_keeps_order(v1, min, min, width);
        lemma_position_of_low_end(min, width);
        if p1.value() == Double::one().neg().value() {
            law_value_determines_number(p1, Double::one().neg());
        }
    }
    if v2.ge(max) {
        lemma_position_keeps_order(max, v2, min, width);
        lemma_position_of_high_end(max, min);
        if p2.value() == Double::one().value() {
            law_value_determines_number(p2, Double::one());
        }
    }
}

/// The distance between one and the next double is above zero.
proof fn lemma_epsilon()
    ensures
        epsilon().value() > 0,
        !epsilon().is_nan(),
{
    reveal(Double::spec_ratio);
    lemma2_to64_rest();
    lemma_pow2_adds(52, 1022);
    lemma_pow2_pos(1022);
    let n = one_in_units();
    law_nearest_exists(n, 4503599627370496);
    law_rounding_keeps_doubles(1);
    assert(magnitude(1) == 1);
    assert(magnitude(0) == 0);
    assert(1 * 4503599627370496 <= n * 1);
    law_rounding_keeps_order(1, 1, n, 4503599627370496);
    assert(1u64 as nat * n == n);
    lemma_magnitude_increases(0, nearest(n, 4503599627370496));
}

/// The place of a value in a range, before it is held, keeps order.
proof fn lemma_position_keeps_order(v1: Double, v2: Double, min: Double, width: Double)
    requires
        !v1.is_nan(),
        !v2.is_nan(),
        v1.value() <= v2.value(),
        min.is_finite(),
        width.is_finite(),
        width.value() > 0,
    ensures
        ({
            let two = Double::from_u64(2);
            let p1 = v1.sub(min).div(width).mul(two).sub(Double::one());
            let p2 = v2.sub(min).div(width).mul(two).sub(Double::one());
            !p1.is_nan() && !p2.is_nan() && p1.value() <= p2.value()
        }),
{
    reveal(Double::spec_neg);
    let two = Double::from_u64(2);
    lemma_two();
    lemma_one();
    assert(magnitude(0) == 0);
    lemma_magnitude_increases(0, 0x4000_0000_0000_0000);
    law_sum_keeps_order(v1, v2, min.neg());
    law_quotient_keeps_order(v1.sub(min), v2.sub(min), width);
    law_product_keeps_order(v1.sub(min).div(width), v2.sub(min).div(width), two);
    law_sum_keeps_order(
        v1.sub(min).div(width).mul(two),
        v2.sub(min).div(width).mul(two),
        Double::one().neg(),
    );
}

/// The low end of a range is at minus one.
proof fn lemma_position_of_low_end(min: Double, width: Double)
    requires
        min.is_finite(),
        width.is_finite(),
        width.value() > 0,
    ensures
        min.sub(min).div(width).mul(Double::from_u64(2)).sub(Double::one()).value()
            == -(one_in_units() as int),
{
    reveal(Double::spec_neg);
    reveal(Double::spec_add);
    reveal(Double::spec_div);
    reveal(Double::spec_mul);
    let two = Double::from_u64(2);
    lemma_two();
    lemma_one();
    lemma_pow2_pos(1074);
    assert(magnitude(0) == 0);
    let away = min.sub(min);
    assert(away == Double::zero());
    let one = one_in_units();
    assert(0 * one == 0);
    assert(0 * two.size() == 0);
    lemma_zero_over(width.size());
    lemma_zero_over(one);
    let ratio = away.div(width);
    assert(ratio == Double::zero());
    assert(ratio.mul(two) == Double::zero());
    law_rounding_keeps_doubles(0x3ff0_0000_0000_0000);
    assert(Double::zero().sub(Double::one()).value() == -(one as int));
}

/// The high end of a range is at one.
proof fn lemma_position_of_high_end(max: Double, min: Double)
    requires
        max.is_finite(),
        min.is_finite(),
        max.sub(min).is_finite(),
        max.sub(min).value() > 0,
    ensures
        max.sub(min).div(max.sub(min)).mul(Double::from_u64(2)).sub(Double::one()).value()
            == one_in_units(),
{
    reveal(Double::spec_neg);
    reveal(Double::spec_add);
    reveal(Double::spec_div);
    reveal(Double::spec_mul);
    let width = max.sub(min);
    let two = Double::from_u64(2);
    let one = one_in_units();
    let (p, q) = (0x3ff0_0000_0000_0000nat, 0x4000_0000_0000_0000nat);
    lemma_two();
    lemma_one();
    lemma_pow2_pos(1074);
    assert(magnitude(0) == 0);
    let w = width.size();
    law_rounding_keeps_doubles(p);
    law_rounding_keeps_doubles(q);
    assert((w * one) * 1 == one * w) by (nonlinear_arith);
    law_rounding_keeps_order(w * one, w, one, 1);
    law_rounding_keeps_order(one, 1, w * one, w);
    assert(nearest(w * one, w) == p);
    assert(width.div(width) == Double::one());
    let t = two.size();
    assert((one * t) * 1 == t * one) by (nonlinear_arith);
    law_rounding_keeps_order(one * t, one, t, 1);
    law_rounding_keeps_order(t, 1, one * t, one);
    assert(Double::one().mul(two) == two);
    lemma_size_of_two();
    assert(two.value() + Double::one().neg().value() == one);
    assert(two.sub(Double::one()).value() == one);
}

/// A number and a finite number have a sum.
proof fn lemma_sum_is_a_number(a: Double, b: Double)
    requires
        !a.is_nan(),
        b.is_finite(),
    ensures
        !a.add(b).is_nan(),
{
    reveal(Double::spec_add);
    let exact = a.value() + b.value();
    law_nearest_exists((if exact < 0 { -exact } else { exact }) as nat, 1);
}

/// The number half a million, and twice it.
proof fn lemma_half_million()
    ensures
        Double::from_u64(500_000).is_finite(),
        Double::from_u64(500_000).sub(Double::from_u64(500_000).neg()).is_finite(),
        Double::from_u64(500_000).sub(Double::from_u64(500_000).neg()).pattern() != 0,
{
    reveal(Double::spec_add);
    reveal(Double::spec_neg);
    let f = FRACTION as nat;
    let k: nat = 8589934592000000;
    lemma2_to64_rest();
    lemma_ratio_is(500_000, 1, k, 1040, 34);
    lemma_magnitude_of_mantissa(1041, k);
    lemma_pow2_unfold(1041);
    lemma_pow2_pos(1040);
    let unit = pow2(1040);
    assert(k * (2 * unit) == k * unit + k * unit) by (nonlinear_arith);
    law_rounding_keeps_doubles(1041 * f + k);
    let half = Double::from_u64(500_000);
    assert(half.neg().neg() == half);
    assert(k * unit > 0) by (nonlinear_arith)
        requires
            k > 0,
            unit > 0,
    ;
    assert(half.value() == k * unit);
    assert(half.value() + half.value() == magnitude(1041 * f + k));
}

/// The shift is no larger than its bound, and the signals are no larger than one.
pub proof fn law_shift_is_bounded(
    price_velocity: Double,
    volume_delta: Double,
    config: ProbabilityConfig,
)
    requires
        !price_velocity.is_nan(),
        !volume_delta.is_nan(),
        config.momentum_weight.is_finite(),
        config.delta_weight.is_finite(),
        config.max_momentum_adjustment.is_finite(),
    ensures
        ({
            let r = momentum_of(price_velocity, volume_delta, config);
            &&& !r.adjustment.is_nan()
            &&& r.adjustment.size() <= config.max_momentum_adjustment.size()
            &&& !r.momentum_signal.is_nan()
            &&& r.momentum_signal.size() <= Double::one().size()
            &&& !r.delta_signal.is_nan()
            &&& r.delta_signal.size() <= Double::one().size()
        }),
{
    let two = Double::from_u64(2);
    let million = Double::from_u64(500_000);
    let m = normalized(price_velocity, two.neg(), two);
    let d = normalized(volume_delta, million.neg(), million);
    lemma_two();
    lemma_half_million();
    reveal(Double::spec_neg);
    law_normalized_is_a_number(price_velocity, two.neg(), two);
    law_normalized_is_a_number(volume_delta, million.neg(), million);
    law_normalized_is_at_most_one(price_velocity, two.neg(), two);
    law_normalized_is_at_most_one(volume_delta, million.neg(), million);
    law_product_with_fraction(m, config.momentum_weight);
    law_product_with_fraction(d, config.delta_weight);
    let sum = m.mul(config.momentum_weight).add(d.mul(config.delta_weight));
    lemma_sum_is_a_number(m.mul(config.momentum_weight), d.mul(config.delta_weight));
    lemma_held_to_one(sum);
    law_product_with_fraction(
        sum.clamp(Double::one().neg(), Double::one()),
        config.max_momentum_adjustment,
    );
}

/// A number that is held to one on either side.
proof fn lemma_held_to_one(x: Double)
    requires
        !x.is_nan(),
    ensures
        ({
            let r = x.clamp(Double::one().neg(), Double::one());
            !r.is_nan() && r.size() <= Double::one().size()
        }),
{
    lemma_one();
    reveal(Double::spec_lt);
    reveal(Double::spec_neg);
}

/// The shift follows BTC: with weights and a bound above zero, a faster rise and more bought
/// volume shift no less towards YES, a market that neither moves nor trades shifts nothing,
/// and rises shift towards YES, falls towards NO.
pub proof fn law_shift_follows_btc(
    v1: Double,
    v2: Double,
    d1: Double,
    d2: Double,
    config: ProbabilityConfig,
)
    requires
        v1.is_finite(),
        v2.is_finite(),
        d1.is_finite(),
        d2.is_finite(),
        v1.value() <= v2.value(),
        d1.value() <= d2.value(),
        config.max_momentum_adjustment.is_finite(),
        config.max_momentum_adjustment.value() > 0,
        config.momentum_weight.is_finite(),
        config.momentum_weight.value() > 0,
        config.delta_weight.is_finite(),
        config.delta_weight.value() > 0,
    ensures
        ({
            let (a, b) = (momentum_of(v1, d1, config), momentum_of(v2, d2, config));
            &&& a.momentum_signal.value() <= b.momentum_signal.value()
            &&& a.delta_signal.value() <= b.delta_signal.value()
            &&& a.adjustment.value() <= b.adjustment.value()
            &&& v1.value() >= 0 && d1.value() >= 0 ==> a.adjustment.value() >= 0
            &&& v2.value() <= 0 && d2.value() <= 0 ==> b.adjustment.value() <= 0
        }),
{
    lemma_shift_keeps_order(v1, v2, d1, d2, config);
    let zero = Double::zero();
    assert(magnitude(0) == 0);
    lemma_still_market(config);
    if v1.value() >= 0 && d1.value() >= 0 {
        lemma_shift_keeps_order(zero, v1, zero, d1, config);
    }
    if v2.value() <= 0 && d2.value() <= 0 {
        lemma_shift_keeps_order(v2, zero, d2, zero, config);
    }
}

proof fn lemma_shift_keeps_order(
    v1: Double,
    v2: Double,
    d1: Double,
    d2: Double,
    config: ProbabilityConfig,
)
    requires
        v1.is_finite(),
        v2.is_finite(),
        d1.is_finite(),
        d2.is_finite(),
        v1.value() <= v2.value(),
        d1.value() <= d2.value(),
        config.max_momentum_adjustment.is_finite(),
        config.max_momentum_adjustment.value() > 0,
        config.momentum_weight.is_finite(),
        config.momentum_weight.value() > 0,
        config.delta_weight.is_finite(),
        config.delta_weight.value() > 0,
    ensures
        ({
            let (a, b) = (momentum_of(v1, d1, config), momentum_of(v2, d2, config));
            &&& a.momentum_signal.value() <= b.momentum_signal.value()
            &&& a.delta_signal.value() <= b.delta_signal.value()
            &&& a.adjustment.value() <= b.adjustment.value()
        }),
{
    reveal(Double::spec_lt);
    reveal(Double::spec_neg);
    reveal(Double::spec_equals);
    assert(magnitude(0) == 0);
    lemma_one();
    lemma_pow2_pos(1074);
    let (a, b) = (momentum_of(v1, d1, config), momentum_of(v2, d2, config));
    let (x, y) = (config.momentum_weight, config.delta_weight);
    lemma_signal_keeps_order(v1, v2, 2);
    lemma_signal_keeps_order(d1, d2, 500_000);
    law_product_keeps_order(a.momentum_signal, b.momentum_signal, x);
    law_product_keeps_order(a.delta_signal, b.delta_signal, y);
    law_product_with_fraction(a.momentum_signal, x);
    law_product_with_fraction(b.momentum_signal, x);
    law_product_with_fraction(a.delta_signal, y);
    law_product_with_fraction(b.delta_signal, y);
    let (p1, p2) = (a.momentum_signal.mul(x), b.momentum_signal.mul(x));
    let (q1, q2) = (a.delta_signal.mul(y), b.delta_signal.mul(y));
    law_sum_keeps_order(p1, p2, q1);
    law_sum_keeps_order(q1, q2, p2);
    law_sum_commutes(p2, q1);
    law_sum_commutes(p2, q2);
    let one = Double::one();
    let raw1 = p1.add(q1).clamp(one.neg(), one);
    let raw2 = p2.add(q2).clamp(one.neg(), one);
    law_product_keeps_order(raw1, raw2, config.max_momentum_adjustment);
}

/// A signal around zero keeps order, and stays within one.
proof fn lemma_signal_keeps_order(a: Double, b: Double, bound: u64)
    requires
        a.is_finite(),
        b.is_finite(),
        a.value() <= b.value(),
        bound == 2 || bound == 500_000,
    ensures
        ({
            let (min, max) = (Double::from_u64(bound).neg(), Double::from_u64(bound));
            let (x, y) = (normalized(a, min, max), normalized(b, min, max));
            &&& !x.is_nan() && !y.is_nan()
            &&& x.value() <= y.value()
            &&& x.size() <= Double::one().size()
            &&& y.size() <= Double::one().size()
        }),
{
    reveal(Double::spec_lt);
    reveal(Double::spec_equals);
    reveal(Double::spec_neg);
    lemma_one();
    lemma_width_of(bound);
    let (min, max) = (Double::from_u64(bound).neg(), Double::from_u64(bound));
    law_normalizing_keeps_order(a, b, min, max);
}

/// The width of the range of a signal.
proof fn lemma_width_of(bound: u64)
    requires
        bound == 2 || bound == 500_000,
    ensures
        ({
            let (min, max) = (Double::from_u64(bound).neg(), Double::from_u64(bound));
            &&& min.is_finite()
            &&& max.is_finite()
            &&& max.sub(min).is_finite()
            &&& max.sub(min).ge(epsilon())
        }),
{
    reveal(Double::spec_lt);
    reveal(Double::spec_equals);
    reveal(Double::spec_neg);
    lemma_two();
    lemma_half_million();
    lemma_epsilon();
    lemma_one();
    lemma_pow2_pos(1074);
    law_integer_is_a_number(bound);
    law_ratio_up_to_one(1, 4503599627370496);
    let n = Double::from_u64(bound);
    assert(n.neg().neg() == n);
    law_sum_keeps_order(Double::zero(), n, n);
    law_sum_commutes(Double::zero(), n);
    law_sum_with_zero(n);
    assert(magnitude(0) == 0);
}

/// Nothing that moves shifts nothing.
proof fn lemma_still_market(config: ProbabilityConfig)
    requires
        config.max_momentum_adjustment.is_finite(),
        config.momentum_weight.is_finite(),
        config.delta_weight.is_finite(),
    ensures
        momentum_of(Double::zero(), Double::zero(), config).adjustment.value() == 0,
{
    reveal(Double::spec_lt);
    reveal(Double::spec_neg);
    assert(magnitude(0) == 0);
    lemma_one();
    lemma_pow2_pos(1074);
    lemma_middle_is_zero(2);
    lemma_middle_is_zero(500_000);
    let r = momentum_of(Double::zero(), Double::zero(), config);
    law_product_has_no_value(r.momentum_signal, config.momentum_weight);
    law_product_has_no_value(r.delta_signal, config.delta_weight);
    law_product_with_fraction(r.momentum_signal, config.momentum_weight);
    law_product_with_fraction(r.delta_signal, config.delta_weight);
    let (p, q) = (
        r.momentum_signal.mul(config.momentum_weight),
        r.delta_signal.mul(config.delta_weight),
    );
    law_sum_of_one_value(p, q);
    law_sum_keeps_order(p, p, q);
    let raw = p.add(q);
    lemma_small_is_finite(raw);
    law_product_has_no_value(raw, config.max_momentum_adjustment);
}

/// The middle of a range around zero is zero.
proof fn lemma_middle_is_zero(bound: u64)
    requires
        bound == 2 || bound == 500_000,
    ensures
        ({
            let r = normalized(
                Double::zero(),
                Double::from_u64(bound).neg(),
                Double::from_u64(bound),
            );
            !r.is_nan() && r.value() == 0 && r.is_finite()
        }),
{
    reveal(Double::spec_lt);
    reveal(Double::spec_equals);
    reveal(Double::spec_neg);
    reveal(Double::spec_abs);
    lemma_width_of(bound);
    lemma_one();
    lemma_pow2_pos(1074);
    assert(magnitude(0) == 0);
    law_integer_is_a_number(bound);
    let n = Double::from_u64(bound);
    let one = Double::one();
    assert(n.neg().neg() == n);
    law_sum_commutes(Double::zero(), n);
    law_sum_with_zero(n);
    let away = Double::zero().sub(n.neg());
    law_value_determines_number(away, n);
    let width = n.sub(n.neg());
    assert(width == n.add(n));
    law_sum_of_twins_is_exact(n);
    assert(width.value() == 2 * n.value() && n.value() > 0);
    lemma_half_quotient(n, width);
    let half = n.div(width);
    lemma_half_times_two(half);
    let middle = one.sub(one);
    assert(middle == Double::zero()) by {
        reveal(Double::spec_add);
    }
    lemma_epsilon();
    assert(width.abs() == width);
    assert(!width.lt(epsilon()));
    assert(middle.clamp(one.neg(), one) == middle);
}

/// A number over twice itself is one half.
proof fn lemma_half_quotient(n: Double, twice: Double)
    requires
        n.is_finite(),
        n.value() > 0,
        twice.is_finite(),
        !twice.negative(),
        twice.size() == 2 * n.size(),
    ensures
        n.div(twice) == Double::ratio(5, 10),
{
    reveal(Double::spec_div);
    reveal(Double::spec_ratio);
    assert(magnitude(0) == 0);
    let one = one_in_units();
    let m = n.size();
    let five = 5nat * one;
    assert((m * one) * 10 == five * (2 * m)) by (nonlinear_arith)
        requires
            five == 5 * one,
    ;
    law_rounding_keeps_order(m * one, 2 * m, five, 10);
    law_rounding_keeps_order(five, 10, m * one, 2 * m);
}

/// Twice one half is one.
proof fn lemma_half_times_two(half: Double)
    requires
        half == Double::ratio(5, 10),
    ensures
        half.mul(Double::from_u64(2)) == Double::one(),
{
    reveal(Double::spec_mul);
    lemma_half();
    lemma_two();
    lemma_size_of_two();
    lemma_one();
    lemma_pow2_pos(1074);
    let one = one_in_units();
    let (h, t) = (half.size(), Double::from_u64(2).size());
    law_rounding_keeps_doubles(0x3ff0_0000_0000_0000);
    assert((h * t) * 1 == one * one) by (nonlinear_arith)
        requires
            2 * h == one,
            t == 2 * one,
    ;
    law_rounding_keeps_order(h * t, one, one, 1);
    law_rounding_keeps_order(one, 1, h * t, one);
}

/// The signal of the momentum rests on the velocity and that of the volume on the volume
/// alone. Two dollars a second and half a million of volume, and what is beyond them,
/// saturate the signals.
pub proof fn law_signals_saturate(
    velocity: Double,
    delta: Double,
    other: Double,
    config: ProbabilityConfig,
)
    requires
        velocity.is_finite(),
        delta.is_finite(),
        !other.is_nan(),
    ensures
        ({
            let r = momentum_of(velocity, delta, config);
            let (two, half_million) = (Double::from_u64(2), Double::from_u64(500_000));
            let one = Double::one();
            &&& momentum_of(velocity, other, config).momentum_signal == r.momentum_signal
            &&& momentum_of(other, delta, config).delta_signal == r.delta_signal
            &&& velocity.value() >= two.value() ==> r.momentum_signal.value() == one.value()
            &&& velocity.value() <= -two.value() ==> r.momentum_signal.value() == -one.value()
            &&& delta.value() >= half_million.value() ==> r.delta_signal.value() == one.value()
            &&& delta.value() <= -half_million.value() ==> r.delta_signal.value() == -one.value()
        }),
{
    reveal(Double::spec_lt);
    reveal(Double::spec_equals);
    reveal(Double::spec_neg);
    lemma_one();
    lemma_width_of(2);
    lemma_width_of(500_000);
    let (two, half_million) = (Double::from_u64(2), Double::from_u64(500_000));
    law_normalizing_keeps_order(velocity, velocity, two.neg(), two);
    law_normalizing_keeps_order(delta, delta, half_million.neg(), half_million);
}

} // verus!
