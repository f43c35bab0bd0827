//! Laws of rounding: it is defined everywhere, keeps order and keeps doubles.
use vstd::prelude::*;
use vstd::arithmetic::power2::{
    pow2, lemma_pow2_adds, lemma_pow2_pos, lemma_pow2_strictly_increases, lemma_pow2_unfold,
    lemma2_to64, lemma2_to64_rest,
};

use crate::numeric::arithmetic::one_in_units;
use crate::numeric::double::Double;
use crate::numeric::rounding::{
    lemma_magnitude_increases, lemma_magnitude_of_mantissa, lemma_nearest_is_unique, magnitude,
    nearest, rounds_to, FRACTION, INFINITE,
};

verus! {

/// Every fraction has a nearest pattern.
pub proof fn law_nearest_exists(num: nat, den: nat)
    ensures
        rounds_to(num, den, nearest(num, den)),
{
    let u = lemma_nearest_at_most(num, den, INFINITE as nat);
    assert(rounds_to(num, den, u));
}

proof fn lemma_nearest_at_most(num: nat, den: nat, u: nat) -> (v: nat)
    requires
        u <= INFINITE,
        u < INFINITE ==> {
            let above = (magnitude(u) + magnitude(u + 1)) * den;
            if u % 2 == 0 {
                2 * num <= above
            } else {
                2 * num < above
            }
        },
    ensures
        rounds_to(num, den, v),
    decreases u,
{
    if rounds_to(num, den, u) {
        u
    } else {
        lemma_nearest_at_most(num, den, (u - 1) as nat)
    }
}

/// A larger fraction does not round to a smaller pattern.
pub proof fn law_rounding_keeps_order(n1: nat, d1: nat, n2: nat, d2: nat)
    requires
        d1 > 0,
        d2 > 0,
        n1 * d2 <= n2 * d1,
    ensures
        nearest(n1, d1) <= nearest(n2, d2),
{
    law_nearest_exists(n1, d1);
    law_nearest_exists(n2, d2);
    let u1 = nearest(n1, d1);
    let u2 = nearest(n2, d2);
    if u1 > u2 {
        let above = magnitude(u2) + magnitude(u2 + 1);
        let below = magnitude((u1 - 1) as nat) + magnitude(u1);
        lemma_magnitude_increases(u2, u2 + 1);
        lemma_magnitude_increases((u1 - 1) as nat, u1);
        if u2 + 1 < u1 {
            lemma_magnitude_increases(u2 + 1, u1);
            if u2 + 1 < u1 - 1 {
                lemma_magnitude_increases(u2 + 1, (u1 - 1) as nat);
            }
        }
        assert(below >= above);
        let strict = u2 + 1 < u1 || u1 % 2 != 0 || u2 % 2 != 0;
        assert(strict);
        assert(below * d1 * d2 <= 2 * n1 * d2) by (nonlinear_arith)
            requires
                below * d1 <= 2 * n1,
        ;
        assert(2 * n2 * d1 <= above * d2 * d1) by (nonlinear_arith)
            requires
                2 * n2 <= above * d2,
        ;
        assert(above * d2 * d1 <= below * d1 * d2) by (nonlinear_arith)
            requires
                above <= below,
        ;
        assert(2 * n1 * d2 == 2 * (n1 * d2) && 2 * n2 * d1 == 2 * (n2 * d1)) by (nonlinear_arith);
        if u2 + 1 < u1 {
            assert(above < below);
            assert(above * d2 * d1 < below * d1 * d2) by (nonlinear_arith)
                requires
                    above < below,
                    d1 > 0,
                    d2 > 0,
            ;
        } else if u1 % 2 != 0 {
            assert(below * d1 * d2 < 2 * n1 * d2) by (nonlinear_arith)
                requires
                    below * d1 < 2 * n1,
                    d2 > 0,
            ;
        } else {
            assert(2 * n2 * d1 < above * d2 * d1) by (nonlinear_arith)
                requires
                    2 * n2 < above * d2,
                    d1 > 0,
            ;
        }
    }
}

/// The size of a double rounds to the double.
pub proof fn law_rounding_keeps_doubles(u: nat)
    requires
        u <= INFINITE,
    ensures
        nearest(magnitude(u), 1) == u,
{
    if u > 0 {
        lemma_magnitude_increases((u - 1) as nat, u);
    }
    lemma_magnitude_increases(u, u + 1);
    assert(rounds_to(magnitude(u), 1, u)) by {
        if u > 0 {
            let below = magnitude((u - 1) as nat) + magnitude(u);
            assert(below * 1 == below);
        }
        let above = magnitude(u) + magnitude(u + 1);
        assert(above * 1 == above);
    }
    lemma_nearest_is_unique(magnitude(u), 1, u);
}

/// A fraction whose nearest mantissa is known.
pub proof fn lemma_ratio_is(num: u64, den: u64, k: nat, t: nat, s: nat)
    requires
        den > 0,
        t + s == 1074,
        FRACTION < k < 2 * FRACTION,
        t <= 2044,
        if k % 2 == 0 {
            (2 * k - 1) * den <= 2 * num * pow2(s) <= (2 * k + 1) * den
        } else {
            (2 * k - 1) * den < 2 * num * pow2(s) < (2 * k + 1) * den
        },
    ensures
        Double::ratio(num, den) == Double::signed(false, t * FRACTION as nat + k),
        magnitude(t * FRACTION as nat + k) == k * pow2(t),
{
    reveal(Double::spec_ratio);
    let u = t * FRACTION as nat + k;
    let n = num as nat * one_in_units();
    let d = den as nat;
    let p = pow2(t);
    lemma_magnitude_of_mantissa(t, k);
    lemma_magnitude_of_mantissa(t, (k - 1) as nat);
    lemma_magnitude_of_mantissa(t, k + 1);
    lemma_pow2_adds(t, s);
    lemma_pow2_pos(t);
    let q = pow2(s);
    let scaled = 2 * num * q;
    assert(2 * n == scaled * p) by (nonlinear_arith)
        requires
            n == num * (p * q),
            scaled == 2 * num * q,
    ;
    let low = (2 * k - 1) * d;
    let high = (2 * k + 1) * d;
    assert(((k - 1) * p + k * p) * d == low * p) by (nonlinear_arith)
        requires
            low == (2 * k - 1) * d,
    ;
    assert((k * p + (k + 1) * p) * d == high * p) by (nonlinear_arith)
        requires
            high == (2 * k + 1) * d,
    ;
    assert(low * p <= scaled * p && scaled * p <= high * p) by (nonlinear_arith)
        requires
            low <= scaled <= high,
            p > 0,
    ;
    if k % 2 != 0 {
        assert(low * p < scaled * p && scaled * p < high * p) by (nonlinear_arith)
            requires
                low < scaled < high,
                p > 0,
        ;
    }
    assert(u % 2 == k % 2) by {
        assert(u == 2 * (t * 0x8_0000_0000_0000) + k) by (nonlinear_arith)
            requires
                u == t * 0x10_0000_0000_0000nat + k,
        ;
    }
    assert(t * FRACTION as nat <= 2044 * FRACTION as nat) by (nonlinear_arith)
        requires
            t <= 2044,
    ;
    assert(u - 1 == t * FRACTION as nat + (k - 1));
    assert(u + 1 == t * FRACTION as nat + (k + 1));
    assert(rounds_to(n, d, u));
    lemma_nearest_is_unique(n, d, u);
}

/// A smaller size has a smaller pattern.
proof fn lemma_sizes_order_patterns(u: nat, v: nat)
    ensures
        magnitude(u) <= magnitude(v) <==> u <= v,
{
    if u < v {
        lemma_magnitude_increases(u, v);
    } else if v < u {
        lemma_magnitude_increases(v, u);
    }
}

/// A product with a number of at most one in size is no larger than the other factor.
pub proof fn law_product_with_fraction(a: Double, b: Double)
    requires
        !a.is_nan(),
        a.size() <= Double::one().size(),
        b.is_finite(),
    ensures
        a.mul(b).is_finite(),
        a.mul(b).size() <= b.size(),
        a.mul(b).negative() == (a.negative() != b.negative()),
{
    reveal(Double::spec_mul);
    lemma_one();
    lemma_pow2_pos(1074);
    let one = one_in_units();
    lemma_sizes_order_patterns(a.pattern(), 0x3ff0_0000_0000_0000);
    law_rounding_keeps_doubles(b.pattern());
    let (x, y) = (a.size(), b.size());
    assert((x * y) * 1 <= y * one) by (nonlinear_arith)
        requires
            x <= one,
    ;
    law_rounding_keeps_order(x * y, one, y, 1);
    let u = nearest(x * y, one);
    lemma_sizes_order_patterns(u, b.pattern());
    assert(a.mul(b).pattern() == u);
}

/// A sum is no larger than the sum of bounds on the sizes of its terms.
pub proof fn law_sum_is_bounded(a: Double, b: Double, c: Double, d: Double)
    requires
        a.is_finite(),
        b.is_finite(),
        c.is_finite(),
        d.is_finite(),
        !c.negative(),
        !d.negative(),
        a.size() <= c.size(),
        b.size() <= d.size(),
    ensures
        !a.add(b).is_nan(),
        a.add(b).size() <= c.add(d).size(),
        !a.negative() && !b.negative() ==> !a.add(b).negative(),
{
    reveal(Double::spec_add);
    let exact = a.value() + b.value();
    let bound = (c.size() + d.size()) as nat;
    let n = (if exact < 0 {
        -exact
    } else {
        exact
    }) as nat;
    assert(n <= bound);
    assert(magnitude(0) == 0);
    law_rounding_keeps_doubles(0);
    law_nearest_exists(n, 1);
    law_nearest_exists(bound, 1);
    assert(n * 1 <= bound * 1);
    law_rounding_keeps_order(n, 1, bound, 1);
    lemma_sizes_order_patterns(nearest(n, 1), nearest(bound, 1));
    assert(c.add(d).size() == magnitude(nearest(bound, 1))) by {
        if bound == 0 {
            assert(c.add(d).pattern() == 0);
        }
    }
    assert(a.add(b).size() == magnitude(nearest(n, 1))) by {
        if exact == 0 {
            assert(a.add(b).pattern() == 0);
        }
    }
}

/// The value of a rounded number of a sign.
proof fn lemma_rounded_value(negative: bool, num: nat, den: nat)
    ensures
        ({
            let r = Double::rounded(negative, num, den);
            let size = magnitude(nearest(num, den));
            &&& !r.is_nan()
            &&& r.pattern() == nearest(num, den)
            &&& r.negative() == negative
            &&& r.value() == if negative {
                -(size as int)
            } else {
                size as int
            }
        }),
{
    law_nearest_exists(num, den);
}

/// No number lies beyond infinity.
proof fn lemma_within_infinity(a: Double)
    requires
        !a.is_nan(),
    ensures
        -(magnitude(INFINITE as nat) as int) <= a.value() <= magnitude(INFINITE as nat),
{
    lemma_sizes_order_patterns(a.pattern(), INFINITE as nat);
}

/// An infinity of the larger or smaller side.
proof fn lemma_value_at_infinity(a: Double, b: Double)
    requires
        !a.is_nan(),
        !b.is_nan(),
        a.value() <= b.value(),
    ensures
        a.is_infinite() && !a.negative() ==> b == a,
        b.is_infinite() && b.negative() ==> a == b,
{
    lemma_within_infinity(a);
    lemma_within_infinity(b);
    lemma_magnitude_increases(0, INFINITE as nat);
    lemma_sizes_order_patterns(a.pattern(), INFINITE as nat);
    lemma_sizes_order_patterns(b.pattern(), INFINITE as nat);
    lemma_sizes_order_patterns(INFINITE as nat, a.pattern());
    lemma_sizes_order_patterns(INFINITE as nat, b.pattern());
}

/// Adding a finite number gives numbers, in the same order.
pub proof fn law_sum_keeps_order(a: Double, b: Double, c: Double)
    requires
        !a.is_nan(),
        !b.is_nan(),
        c.is_finite(),
        a.value() <= b.value(),
    ensures
        !a.add(c).is_nan(),
        !b.add(c).is_nan(),
        a.add(c).value() <= b.add(c).value(),
{
    reveal(Double::spec_add);
    assert(magnitude(0) == 0);
    lemma_value_at_infinity(a, b);
    let (x, y) = (a.value() + c.value(), b.value() + c.value());
    let m = (if x < 0 { -x } else { x }) as nat;
    let n = (if y < 0 { -y } else { y }) as nat;
    lemma_rounded_value(x < 0, m, 1);
    lemma_rounded_value(y < 0, n, 1);
    assert(!a.add(c).is_nan());
    assert(!b.add(c).is_nan());
    lemma_within_infinity(a.add(c));
    lemma_within_infinity(b.add(c));
    if a.is_finite() && b.is_finite() {
        if m <= n {
            assert(m * 1 <= n * 1);
            law_rounding_keeps_order(m, 1, n, 1);
            lemma_sizes_order_patterns(nearest(m, 1), nearest(n, 1));
        }
        if n <= m {
            assert(n * 1 <= m * 1);
            law_rounding_keeps_order(n, 1, m, 1);
            lemma_sizes_order_patterns(nearest(n, 1), nearest(m, 1));
        }
        assert(a.add(c).value() == if x == 0 {
            0
        } else {
            Double::rounded(x < 0, m, 1).value()
        });
        assert(b.add(c).value() == if y == 0 {
            0
        } else {
            Double::rounded(y < 0, n, 1).value()
        });
    }
}

/// Sizes in proportion, rounded, are in the order of the sizes.
proof fn lemma_scaled_sizes(m: nat, n: nat, factor: nat, den: nat)
    requires
        m <= n,
        den > 0,
    ensures
        magnitude(nearest(m * factor, den)) <= magnitude(nearest(n * factor, den)),
{
    assert((m * factor) * den <= (n * factor) * den) by (nonlinear_arith)
        requires
            m <= n,
    ;
    law_rounding_keeps_order(m * factor, den, n * factor, den);
    lemma_sizes_order_patterns(nearest(m * factor, den), nearest(n * factor, den));
}

/// Dividing by a finite number above zero gives numbers, in the same order.
pub proof fn law_quotient_keeps_order(a: Double, b: Double, w: Double)
    requires
        !a.is_nan(),
        !b.is_nan(),
        w.is_finite(),
        w.value() > 0,
        a.value() <= b.value(),
    ensures
        !a.div(w).is_nan(),
        !b.div(w).is_nan(),
        a.div(w).value() <= b.div(w).value(),
{
    reveal(Double::spec_div);
    assert(magnitude(0) == 0);
    lemma_value_at_infinity(a, b);
    let one = one_in_units();
    lemma_rounded_value(a.negative(), a.size() * one, w.size());
    lemma_rounded_value(b.negative(), b.size() * one, w.size());
    lemma_within_infinity(a.div(w));
    lemma_within_infinity(b.div(w));
    if a.is_finite() && b.is_finite() {
        if a.size() <= b.size() {
            lemma_scaled_sizes(a.size(), b.size(), one, w.size());
        }
        if b.size() <= a.size() {
            lemma_scaled_sizes(b.size(), a.size(), one, w.size());
        }
        if a.size() == 0 {
            lemma_zero_over(w.size());
            assert(0 * one == 0);
        }
        if b.size() == 0 {
            lemma_zero_over(w.size());
            assert(0 * one == 0);
        }
    }
}

/// Multiplying by a finite number above zero gives numbers, in the same order.
pub proof fn law_product_keeps_order(a: Double, b: Double, w: Double)
    requires
        !a.is_nan(),
        !b.is_nan(),
        w.is_finite(),
        w.value() > 0,
        a.value() <= b.value(),
    ensures
        !a.mul(w).is_nan(),
        !b.mul(w).is_nan(),
        a.mul(w).value() <= b.mul(w).value(),
{
    reveal(Double::spec_mul);
    assert(magnitude(0) == 0);
    lemma_pow2_pos(1074);
    lemma_value_at_infinity(a, b);
    let one = one_in_units();
    lemma_rounded_value(a.negative(), a.size() * w.size(), one);
    lemma_rounded_value(b.negative(), b.size() * w.size(), one);
    lemma_within_infinity(a.mul(w));
    lemma_within_infinity(b.mul(w));
    if a.is_finite() && b.is_finite() {
        if a.size() <= b.size() {
            lemma_scaled_sizes(a.size(), b.size(), w.size(), one);
        }
        if b.size() <= a.size() {
            lemma_scaled_sizes(b.size(), a.size(), w.size(), one);
        }
        if a.size() == 0 {
            lemma_zero_over(one);
            assert(0 * w.size() == 0);
        }
        if b.size() == 0 {
            lemma_zero_over(one);
            assert(0 * w.size() == 0);
        }
    }
}

/// Zero over anything rounds to zero.
pub proof fn lemma_zero_over(den: nat)
    requires
        den > 0,
    ensures
        nearest(0, den) == 0,
{
    assert(magnitude(0) == 0);
    law_rounding_keeps_doubles(0);
    assert(0 * 1 <= 0 * den);
    law_rounding_keeps_order(0, den, 0, 1);
}

/// The signs of two numbers are equal exactly where both have one or neither has.
pub proof fn lemma_signums(a: Double, b: Double)
    requires
        !a.is_nan(),
        !b.is_nan(),
    ensures
        a.signum().equals(b.signum()) == (a.negative() == b.negative()),
{
    reveal(Double::spec_equals);
    lemma_one();
    lemma_pow2_pos(1074);
}

/// A difference is above zero exactly where the first number is the larger one, and below
/// zero exactly where it is the smaller one.
pub proof fn law_difference_has_a_sign(a: Double, b: Double)
    requires
        a.is_finite(),
        b.is_finite(),
    ensures
        !a.sub(b).is_nan(),
        a.value() > b.value() <==> a.sub(b).value() > 0,
        a.value() < b.value() <==> a.sub(b).value() < 0,
{
    reveal(Double::spec_neg);
    reveal(Double::spec_add);
    let x = a.value() - b.value();
    let n = (if x < 0 { -x } else { x }) as nat;
    assert(b.neg().value() == -b.value());
    lemma_rounded_value(x < 0, n, 1);
    assert(magnitude(0) == 0);
    if n > 0 {
        lemma_rounds_above_zero(n, 1);
    }
}

/// A difference that is a number is that number.
pub proof fn law_difference_is_exact(a: Double, b: Double, c: Double)
    requires
        a.is_finite(),
        b.is_finite(),
        c.is_finite(),
        a.value() - b.value() == c.value(),
        c.value() != 0,
    ensures
        a.sub(b) == c,
{
    reveal(Double::spec_neg);
    reveal(Double::spec_add);
    assert(b.neg().value() == -b.value());
    law_rounding_keeps_doubles(c.pattern());
    let x = a.value() - b.value();
    lemma_rounded_value(x < 0, c.size(), 1);
    assert(magnitude(0) == 0);
}

/// A difference reaches a number that its exact value reaches.
pub proof fn law_difference_reaches(a: Double, b: Double, c: Double)
    requires
        a.is_finite(),
        b.is_finite(),
        c.is_finite(),
        c.value() > 0,
    ensures
        a.value() - b.value() >= c.value() ==> a.sub(b).value() >= c.value(),
        a.value() - b.value() <= c.value() ==> a.sub(b).value() <= c.value(),
{
    reveal(Double::spec_neg);
    reveal(Double::spec_add);
    assert(b.neg().value() == -b.value());
    law_rounding_keeps_doubles(c.pattern());
    let x = a.value() - b.value();
    let n = (if x < 0 { -x } else { x }) as nat;
    lemma_rounded_value(x < 0, n, 1);
    assert(magnitude(0) == 0);
    if x >= c.value() {
        assert(c.size() * 1 <= n * 1);
        law_rounding_keeps_order(c.size(), 1, n, 1);
        lemma_sizes_order_patterns(c.pattern(), nearest(n, 1));
    } else if x > 0 {
        assert(n * 1 <= c.size() * 1);
        law_rounding_keeps_order(n, 1, c.size(), 1);
        lemma_sizes_order_patterns(nearest(n, 1), c.pattern());
    }
}

/// The order of the numbers of a sum does not matter.
pub proof fn law_sum_commutes(a: Double, b: Double)
    ensures
        a.add(b) == b.add(a),
{
    reveal(Double::spec_add);
}

/// Sums of numbers that are not below zero are in the order of what is added.
pub proof fn law_sums_grow(a: Double, b: Double, c: Double, d: Double)
    requires
        !a.is_nan(),
        !b.is_nan(),
        !c.is_nan(),
        !d.is_nan(),
        0 <= a.value() <= b.value(),
        0 <= c.value() <= d.value(),
    ensures
        !a.add(c).is_nan(),
        !b.add(d).is_nan(),
        0 <= a.add(c).value() <= b.add(d).value(),
{
    assert(magnitude(0) == 0);
    lemma_magnitude_increases(0, INFINITE as nat);
    lemma_sum_is_not_negative(a, c);
    lemma_sum_is_not_negative(b, c);
    lemma_sum_is_not_negative(b, d);
    lemma_value_at_infinity(a, b);
    lemma_value_at_infinity(c, d);
    lemma_within_infinity(a.add(c));
    lemma_within_infinity(b.add(c));
    lemma_within_infinity(b.add(d));
    law_sum_commutes(b, c);
    law_sum_commutes(b, d);
    if c.is_finite() {
        law_sum_keeps_order(a, b, c);
    } else {
        reveal(Double::spec_add);
    }
    if b.is_finite() {
        law_sum_keeps_order(c, d, b);
    } else {
        reveal(Double::spec_add);
    }
}

/// Adding zero does not change a value.
pub proof fn law_sum_with_zero(a: Double)
    requires
        a.is_finite(),
    ensures
        a.add(Double::zero()).value() == a.value(),
        a.add(Double::negative_zero()).value() == a.value(),
{
    reveal(Double::spec_add);
    assert(magnitude(0) == 0);
    law_rounding_keeps_doubles(a.pattern());
    lemma_rounded_value(a.value() < 0, a.size(), 1);
}

/// What is at least one unit does not round to zero.
pub proof fn lemma_rounds_above_zero(num: nat, den: nat)
    requires
        den > 0,
        num >= den,
    ensures
        magnitude(nearest(num, den)) > 0,
{
    law_rounding_keeps_doubles(1);
    law_nearest_exists(num, den);
    assert(magnitude(1) == 1);
    assert(magnitude(0) == 0);
    assert(1 * den <= num * 1);
    law_rounding_keeps_order(1, 1, num, den);
    lemma_magnitude_increases(0, nearest(num, den));
}

/// Swapping the numbers of a difference changes its sign and nothing else.
pub proof fn law_swapped_difference_is_opposite(a: Double, b: Double)
    requires
        a.is_finite(),
        b.is_finite(),
    ensures
        a.sub(b).size() == b.sub(a).size(),
        a.sub(b).value() == -b.sub(a).value(),
{
    reveal(Double::spec_neg);
    reveal(Double::spec_add);
    let x = a.value() - b.value();
    let n = (if x < 0 { -x } else { x }) as nat;
    assert(b.neg().value() == -b.value());
    assert(a.neg().value() == -a.value());
    lemma_rounded_value(x < 0, n, 1);
    lemma_rounded_value(-x < 0, n, 1);
    assert(magnitude(0) == 0);
}

/// Opposite numbers have opposite quotients by a number above zero.
pub proof fn law_quotients_of_opposites(a: Double, b: Double, w: Double)
    requires
        !a.is_nan(),
        !b.is_nan(),
        a.value() == -b.value(),
        w.is_finite(),
        w.value() > 0,
    ensures
        a.div(w).value() == -b.div(w).value(),
{
    reveal(Double::spec_div);
    assert(magnitude(0) == 0);
    lemma_sizes_order_patterns(a.pattern(), b.pattern());
    lemma_sizes_order_patterns(b.pattern(), a.pattern());
    let one = one_in_units();
    lemma_rounded_value(a.negative(), a.size() * one, w.size());
    lemma_rounded_value(b.negative(), b.size() * one, w.size());
    if a.size() == 0 {
        lemma_zero_over(w.size());
        assert(0 * one == 0);
    }
}

/// A quotient by a number above zero has the sign of what is divided.
pub proof fn law_quotient_keeps_sign(a: Double, w: Double)
    requires
        !a.is_nan(),
        w.is_finite(),
        w.value() > 0,
    ensures
        !a.div(w).is_nan(),
        a.value() >= 0 ==> a.div(w).value() >= 0,
        a.value() <= 0 ==> a.div(w).value() <= 0,
{
    reveal(Double::spec_div);
    assert(magnitude(0) == 0);
    lemma_zero_over(w.size());
    assert(0 * one_in_units() == 0);
    assert(Double::zero().div(w).value() == 0);
    if a.value() >= 0 {
        law_quotient_keeps_order(Double::zero(), a, w);
    }
    if a.value() <= 0 {
        law_quotient_keeps_order(a, Double::zero(), w);
    }
}

/// A product with a number above zero has the sign of the other number.
pub proof fn law_product_keeps_sign(a: Double, w: Double)
    requires
        !a.is_nan(),
        w.is_finite(),
        w.value() > 0,
    ensures
        !a.mul(w).is_nan(),
        a.value() >= 0 ==> a.mul(w).value() >= 0,
        a.value() <= 0 ==> a.mul(w).value() <= 0,
{
    reveal(Double::spec_mul);
    assert(magnitude(0) == 0);
    lemma_pow2_pos(1074);
    lemma_zero_over(one_in_units());
    assert(0 * w.size() == 0);
    assert(Double::zero().mul(w).value() == 0);
    if a.value() >= 0 {
        law_product_keeps_order(Double::zero(), a, w);
    }
    if a.value() <= 0 {
        law_product_keeps_order(a, Double::zero(), w);
    }
}

/// A number above zero, divided by itself, is one.
pub proof fn law_self_quotient_is_one(w: Double)
    requires
        w.is_finite(),
        w.value() > 0,
    ensures
        w.div(w) == Double::one(),
{
    reveal(Double::spec_div);
    assert(magnitude(0) == 0);
    lemma_one();
    let one = one_in_units();
    let n = w.size();
    law_rounding_keeps_doubles(0x3ff0_0000_0000_0000);
    assert((n * one) * 1 == one * n) by (nonlinear_arith);
    law_rounding_keeps_order(n * one, n, one, 1);
    law_rounding_keeps_order(one, 1, n * one, n);
}

/// Dividing by one changes nothing.
pub proof fn law_quotient_by_one(a: Double)
    requires
        !a.is_nan(),
    ensures
        a.div(Double::one()) == a,
{
    reveal(Double::spec_div);
    lemma_one();
    lemma_pow2_pos(1074);
    let one = one_in_units();
    let n = a.size();
    if a.is_finite() {
        law_rounding_keeps_doubles(a.pattern());
        assert((n * one) * 1 == n * one) by (nonlinear_arith);
        law_rounding_keeps_order(n * one, one, n, 1);
        law_rounding_keeps_order(n, 1, n * one, one);
    }
}

/// Multiplying by one changes nothing.
pub proof fn law_product_with_one(a: Double)
    requires
        !a.is_nan(),
    ensures
        a.mul(Double::one()) == a,
        Double::one().mul(a) == a,
{
    reveal(Double::spec_mul);
    lemma_one();
    lemma_pow2_pos(1074);
    let one = one_in_units();
    let n = a.size();
    if a.is_finite() {
        law_rounding_keeps_doubles(a.pattern());
        assert((n * one) * 1 == n * one) by (nonlinear_arith);
        assert(one * n == n * one) by (nonlinear_arith);
        law_rounding_keeps_order(n * one, one, n, 1);
        law_rounding_keeps_order(n, 1, n * one, one);
    }
}

/// Dividing by one or more makes nothing larger.
pub proof fn law_quotient_shrinks(a: Double, w: Double)
    requires
        a.is_finite(),
        w.is_finite(),
        w.value() >= one_in_units(),
    ensures
        a.div(w).is_finite(),
        a.div(w).size() <= a.size(),
{
    reveal(Double::spec_div);
    assert(magnitude(0) == 0);
    lemma_pow2_pos(1074);
    let one = one_in_units();
    let (n, d) = (a.size(), w.size());
    lemma_rounded_value(a.negative() != w.negative(), n * one, d);
    law_rounding_keeps_doubles(a.pattern());
    assert((n * one) * 1 <= n * d) by (nonlinear_arith)
        requires
            one <= d,
    ;
    law_rounding_keeps_order(n * one, d, n, 1);
    lemma_sizes_order_patterns(nearest(n * one, d), a.pattern());
}

/// An integer as a number: finite, and one or more where the integer is.
pub proof fn law_integer_is_a_number(n: u64)
    ensures
        Double::from_u64(n).is_finite(),
        Double::from_u64(n).value() >= 0,
        n >= 1 ==> Double::from_u64(n).value() >= one_in_units(),
        n == 0 ==> Double::from_u64(n) == Double::zero(),
{
    reveal(Double::spec_ratio);
    let one = one_in_units();
    let f = FRACTION as nat;
    let m = n as nat * one;
    lemma_one();
    lemma_pow2_pos(1074);
    lemma2_to64_rest();
    lemma_rounded_value(false, m, 1);
    lemma_magnitude_of_mantissa(1086, f);
    lemma_pow2_adds(52, 1086);
    lemma_pow2_adds(64, 1074);
    let top = 1086 * f + f;
    law_rounding_keeps_doubles(top);
    assert(m <= pow2(64) * one) by (nonlinear_arith)
        requires
            m == n as nat * one,
            n < pow2(64),
    ;
    assert(m * 1 <= magnitude(top) * 1);
    law_rounding_keeps_order(m, 1, magnitude(top), 1);
    assert(magnitude(0) == 0);
    if n >= 1 {
        law_rounding_keeps_doubles(0x3ff0_0000_0000_0000);
        assert(one * 1 <= m * 1) by (nonlinear_arith)
            requires
                m == n as nat * one,
                n >= 1,
        ;
        law_rounding_keeps_order(one, 1, m, 1);
        lemma_sizes_order_patterns(0x3ff0_0000_0000_0000, nearest(m, 1));
    } else {
        assert(0 * one == 0);
        lemma_zero_over(1);
    }
}

/// Larger integers are not smaller numbers.
pub proof fn law_integers_keep_order(m: u64, n: u64)
    requires
        m <= n,
    ensures
        Double::from_u64(m).value() <= Double::from_u64(n).value(),
{
    reveal(Double::spec_ratio);
    let one = one_in_units();
    let (x, y) = (m as nat * one, n as nat * one);
    lemma_rounded_value(false, x, 1);
    lemma_rounded_value(false, y, 1);
    assert(x * 1 <= y * 1) by (nonlinear_arith)
        requires
            x == m as nat * one,
            y == n as nat * one,
            m <= n,
    ;
    law_rounding_keeps_order(x, 1, y, 1);
    lemma_sizes_order_patterns(nearest(x, 1), nearest(y, 1));
}

/// Two numbers that are not below zero have a sum that is not below zero.
pub proof fn lemma_sum_is_not_negative(a: Double, b: Double)
    requires
        !a.is_nan(),
        !b.is_nan(),
        a.value() >= 0,
        b.value() >= 0,
    ensures
        !a.add(b).is_nan(),
        a.add(b).value() >= 0,
{
    reveal(Double::spec_add);
    assert(magnitude(0) == 0);
    lemma_magnitude_increases(0, INFINITE as nat);
    law_nearest_exists((a.value() + b.value()) as nat, 1);
}

/// A fraction of two integers above zero is above zero.
pub proof fn law_ratio_is_above_zero(num: u64, den: u64)
    requires
        0 < num,
        0 < den,
    ensures
        Double::ratio(num, den).value() > 0,
{
    reveal(Double::spec_ratio);
    lemma2_to64_rest();
    lemma_pow2_adds(64, 1010);
    lemma_pow2_pos(1010);
    let n = num as nat * one_in_units();
    assert(n >= den) by (nonlinear_arith)
        requires
            n == num as nat * one_in_units(),
            num > 0,
            one_in_units() >= den,
    ;
    lemma_rounded_value(false, n, den as nat);
    lemma_rounds_above_zero(n, den as nat);
}

/// A fraction of two integers is finite, and one or more where it counts as many or more
/// parts than make a whole.
pub proof fn law_ratio_is_finite(num: u64, den: u64)
    requires
        0 < den,
    ensures
        Double::ratio(num, den).is_finite(),
        !Double::ratio(num, den).negative(),
        num >= den ==> Double::ratio(num, den).value() >= one_in_units(),
{
    reveal(Double::spec_ratio);
    law_integer_is_a_number(num);
    lemma_one();
    let one = one_in_units();
    let n = num as nat * one;
    lemma_rounded_value(false, n, den as nat);
    lemma_rounded_value(false, n, 1);
    assert(n * 1 <= n * den) by (nonlinear_arith)
        requires
            den >= 1,
    ;
    law_rounding_keeps_order(n, den as nat, n, 1);
    if num >= den {
        law_rounding_keeps_doubles(0x3ff0_0000_0000_0000);
        assert(one * den <= n * 1) by (nonlinear_arith)
            requires
                n == num as nat * one,
                num >= den,
        ;
        law_rounding_keeps_order(one, 1, n, den as nat);
        lemma_sizes_order_patterns(0x3ff0_0000_0000_0000, nearest(n, den as nat));
    }
}

/// A product with a number that is not below zero grows with the other number.
pub proof fn law_product_grows(a: Double, v: Double, w: Double)
    requires
        a.is_finite(),
        v.is_finite(),
        w.is_finite(),
        a.value() >= 0,
        0 <= v.value() <= w.value(),
    ensures
        !a.mul(v).is_nan(),
        !a.mul(w).is_nan(),
        0 <= a.mul(v).value() <= a.mul(w).value(),
        a.mul(v) == v.mul(a),
{
    reveal(Double::spec_mul);
    lemma_pow2_pos(1074);
    assert(magnitude(0) == 0);
    let one = one_in_units();
    lemma_rounded_value(a.negative() != v.negative(), a.size() * v.size(), one);
    lemma_rounded_value(a.negative() != w.negative(), a.size() * w.size(), one);
    lemma_scaled_sizes(v.size(), w.size(), a.size(), one);
    assert(v.size() * a.size() == a.size() * v.size()) by (nonlinear_arith);
    assert(w.size() * a.size() == a.size() * w.size()) by (nonlinear_arith);
    lemma_zero_over(one);
    if a.size() == 0 {
        assert(0 * v.size() == 0);
        assert(0 * w.size() == 0);
    }
    if v.size() == 0 {
        assert(a.size() * 0 == 0);
    }
    if w.size() == 0 {
        assert(a.size() * 0 == 0);
    }
}

/// One half is exactly half of one.
pub proof fn lemma_half()
    ensures
        Double::ratio(5, 10).is_finite(),
        !Double::ratio(5, 10).negative(),
        2 * Double::ratio(5, 10).size() == one_in_units(),
{
    reveal(Double::spec_ratio);
    let f = FRACTION as nat;
    lemma2_to64_rest();
    lemma_magnitude_of_mantissa(1021, f);
    lemma_pow2_adds(52, 1021);
    lemma_pow2_unfold(1074);
    let u = 1021 * f + f;
    law_rounding_keeps_doubles(u);
    let n = 5nat * one_in_units();
    assert(n * 1 == magnitude(u) * 10);
    law_rounding_keeps_order(n, 10, magnitude(u), 1);
    law_rounding_keeps_order(magnitude(u), 1, n, 10);
    law_nearest_exists(n, 10);
}

/// Opposite values have one pattern.
pub proof fn law_value_determines_size(a: Double, b: Double)
    requires
        a.value() == -b.value(),
        a.value() != 0,
    ensures
        a.pattern() == b.pattern(),
        a.size() == b.size(),
        a.negative() != b.negative(),
{
    lemma_sizes_order_patterns(a.pattern(), b.pattern());
    lemma_sizes_order_patterns(b.pattern(), a.pattern());
}

/// A sum of which one number has no value has the value of the other.
pub proof fn law_sum_of_one_value(a: Double, b: Double)
    requires
        a.is_finite(),
        b.is_finite(),
    ensures
        b.value() == 0 ==> a.add(b).value() == a.value(),
        a.value() == 0 ==> a.add(b).value() == b.value(),
{
    reveal(Double::spec_add);
    assert(magnitude(0) == 0);
    law_rounding_keeps_doubles(a.pattern());
    law_rounding_keeps_doubles(b.pattern());
    lemma_rounded_value(a.value() < 0, a.size(), 1);
    lemma_rounded_value(b.value() < 0, b.size(), 1);
}

/// A number and itself add up to exactly twice it, unless that is too much.
pub proof fn law_sum_of_twins_is_exact(n: Double)
    requires
        n.is_finite(),
        n.value() > 0,
        n.add(n).is_finite(),
    ensures
        n.add(n).value() == 2 * n.value(),
{
    reveal(Double::spec_add);
    assert(magnitude(0) == 0);
    let u = n.pattern();
    let twice = 2 * n.size();
    let v = if u < FRACTION {
        2 * u
    } else {
        u + FRACTION as nat
    };
    if u < FRACTION {
        lemma2_to64();
        lemma_magnitude_of_mantissa(0, 2 * u);
        assert((2 * u) * pow2(0) == 2 * u) by (nonlinear_arith)
            requires
                pow2(0) == 1,
        ;
    } else {
        let t = (u / FRACTION as nat - 1) as nat;
        let k = FRACTION as nat + u % FRACTION as nat;
        lemma_magnitude_of_mantissa(t + 1, k);
        lemma_pow2_unfold(t + 1);
        assert(k * pow2(t + 1) == 2 * (k * pow2(t))) by (nonlinear_arith)
            requires
                pow2(t + 1) == 2 * pow2(t),
        ;
        assert((t + 1) * FRACTION as nat + k == v);
    }
    assert(magnitude(v) == twice);
    if v > INFINITE {
        lemma_magnitude_increases(INFINITE as nat, v);
        law_rounding_keeps_doubles(INFINITE as nat);
        law_rounding_keeps_order(magnitude(INFINITE as nat), 1, twice, 1);
    } else {
        law_rounding_keeps_doubles(v);
    }
    lemma_rounded_value(false, twice, 1);
}

/// The numbers two and four.
pub proof fn lemma_two()
    ensures
        Double::from_u64(2) == Double::signed(false, 0x4000_0000_0000_0000),
        Double::from_u64(2).is_finite(),
        Double::from_u64(2).pattern() != 0,
        Double::from_u64(2).sub(Double::from_u64(2).neg()).is_finite(),
        Double::from_u64(2).sub(Double::from_u64(2).neg()).pattern() != 0,
{
    reveal(Double::spec_ratio);
    reveal(Double::spec_add);
    reveal(Double::spec_neg);
    let f = FRACTION as nat;
    lemma2_to64_rest();
    lemma_magnitude_of_mantissa(1023, f);
    lemma_magnitude_of_mantissa(1024, f);
    lemma_pow2_adds(52, 1023);
    lemma_pow2_adds(52, 1024);
    lemma_pow2_unfold(1075);
    lemma_pow2_unfold(1076);
    lemma_pow2_pos(1074);
    law_rounding_keeps_doubles(1023 * f + f);
    law_rounding_keeps_doubles(1024 * f + f);
    assert(2u64 as nat * one_in_units() == magnitude(1023 * f + f));
    let two = Double::from_u64(2);
    assert(two.pattern() == 0x4000_0000_0000_0000);
    assert(two.neg().neg() == two);
    assert(two.value() + two.value() == magnitude(1024 * f + f));
}

/// The number two, in units.
pub proof fn lemma_size_of_two()
    ensures
        Double::from_u64(2).value() == 2 * one_in_units(),
{
    lemma_two();
    let f = FRACTION as nat;
    lemma_magnitude_of_mantissa(1023, f);
    lemma2_to64_rest();
    lemma_pow2_adds(52, 1023);
    lemma_pow2_unfold(1075);
    assert(1023 * f + f == 0x4000_0000_0000_0000);
}

/// The middle of two numbers above zero lies between them.
pub proof fn law_middle_lies_between(a: Double, b: Double)
    requires
        0 < a.value() <= b.value(),
        a.is_finite(),
        b.is_finite(),
        b.add(b).is_finite(),
    ensures
        a.value() <= a.add(b).div(Double::from_u64(2)).value() <= b.value(),
        a.add(b).div(Double::from_u64(2)) == b.add(a).div(Double::from_u64(2)),
        a.add(b).div(Double::from_u64(2)).is_finite(),
{
    let two = Double::from_u64(2);
    lemma_two();
    lemma_size_of_two();
    lemma_pow2_pos(1074);
    assert(magnitude(0) == 0);
    law_sum_commutes(a, b);
    law_sum_keeps_order(a, b, a);
    law_sum_keeps_order(a, b, b);
    let (low, sum, high) = (a.add(a), b.add(a), b.add(b));
    assert(low.is_finite() && sum.is_finite()) by {
        reveal(Double::spec_add);
        lemma_within_infinity(low);
        lemma_within_infinity(sum);
        lemma_sum_is_not_negative(a, a);
        lemma_sum_is_not_negative(b, a);
        lemma_below_finite(low, high);
        lemma_below_finite(sum, high);
    }
    law_sum_of_twins_is_exact(a);
    law_sum_of_twins_is_exact(b);
    law_quotient_keeps_order(low, sum, two);
    law_quotient_keeps_order(sum, high, two);
    lemma_half_of_twins(a, low);
    lemma_half_of_twins(b, high);
    lemma_below_finite(sum.div(two), b);
}

/// The middle of two numbers above zero is the exact one, where that is a double.
pub proof fn law_exact_middle_is_met(a: Double, b: Double, middle: Double)
    requires
        a.is_finite(),
        b.is_finite(),
        middle.is_finite(),
        middle.value() > 0,
        a.value() + b.value() == 2 * middle.value(),
        middle.add(middle).is_finite(),
    ensures
        a.add(b).div(Double::from_u64(2)) == middle,
{
    law_sum_of_twins_is_exact(middle);
    assert(a.add(b) == middle.add(middle)) by {
        reveal(Double::spec_add);
    }
    lemma_half_of_twins(middle, a.add(b));
}

/// Twice a share is exactly twice it.
pub proof fn law_product_with_two(a: Double)
    requires
        !a.is_nan(),
        0 <= a.value() <= Double::one().value(),
    ensures
        a.mul(Double::from_u64(2)).value() == 2 * a.value(),
{
    let two = Double::from_u64(2);
    lemma_two();
    lemma_size_of_two();
    lemma_pow2_pos(1074);
    assert(magnitude(0) == 0);
    law_sums_of_shares_are_finite(a, a);
    if a.value() == 0 {
        law_product_has_no_value(a, two);
    } else {
        law_sum_of_twins_is_exact(a);
        let one = one_in_units();
        let (m, twice) = (a.size() * two.size(), 2 * a.size());
        assert(m * 1 == twice * one) by (nonlinear_arith)
            requires
                m == a.size() * two.size(),
                two.size() == 2 * one,
                twice == 2 * a.size(),
        ;
        law_rounding_keeps_order(m, one, twice, 1);
        law_rounding_keeps_order(twice, 1, m, one);
        assert(a.mul(two) == a.add(a)) by {
            reveal(Double::spec_mul);
            reveal(Double::spec_add);
        }
    }
}

/// A number from zero up to a finite one is finite.
proof fn lemma_below_finite(a: Double, b: Double)
    requires
        !a.is_nan(),
        b.is_finite(),
        0 <= a.value() <= b.value(),
    ensures
        a.is_finite(),
{
    assert(magnitude(0) == 0);
    if a.is_infinite() {
        lemma_magnitude_increases(b.pattern(), INFINITE as nat);
        assert(a.size() > b.size());
        if b.negative() {
            lemma_magnitude_increases(0, INFINITE as nat);
        }
    }
}

/// Half of twice a number is the number.
pub proof fn lemma_half_of_twins(a: Double, twice: Double)
    requires
        a.is_finite(),
        a.value() > 0,
        twice.is_finite(),
        twice.value() == 2 * a.value(),
    ensures
        twice.div(Double::from_u64(2)) == a,
{
    reveal(Double::spec_div);
    let two = Double::from_u64(2);
    lemma_two();
    lemma_size_of_two();
    lemma_pow2_pos(1074);
    assert(magnitude(0) == 0);
    let one = one_in_units();
    let (m, t) = (twice.size() * one, two.size());
    assert(m * 1 == a.size() * t) by (nonlinear_arith)
        requires
            m == twice.size() * one,
            twice.size() == 2 * a.size(),
            t == 2 * one,
    ;
    law_rounding_keeps_order(m, t, a.size(), 1);
    law_rounding_keeps_order(a.size(), 1, m, t);
    law_rounding_keeps_doubles(a.pattern());
    lemma_rounded_value(false, m, t);
    law_value_determines_number(twice.div(two), a);
}

/// A whole is one.
pub proof fn law_self_ratio_is_one(n: u64)
    requires
        n > 0,
    ensures
        Double::ratio(n, n) == Double::one(),
{
    reveal(Double::spec_ratio);
    lemma_one();
    let one = one_in_units();
    law_rounding_keeps_doubles(0x3ff0_0000_0000_0000);
    assert((n as nat * one) * 1 == one * n as nat) by (nonlinear_arith);
    law_rounding_keeps_order(n as nat * one, n as nat, one, 1);
    law_rounding_keeps_order(one, 1, n as nat * one, n as nat);
}

/// Small fractions of one denominator are told apart, in order.
pub proof fn law_ratios_keep_order(smaller: u64, larger: u64, den: u64)
    requires
        smaller < larger <= den <= 1000,
    ensures
        Double::ratio(smaller, den).value() < Double::ratio(larger, den).value(),
{
    reveal(Double::spec_ratio);
    lemma_one();
    lemma_pow2_pos(1021);
    lemma2_to64_rest();
    lemma_pow2_adds(53, 1021);
    let one = one_in_units();
    let step = pow2(1021);
    let (x, y) = (smaller as nat * one, larger as nat * one);
    lemma_ratio_is_near(smaller, den);
    lemma_ratio_is_near(larger, den);
    law_ratio_up_to_one(smaller, den);
    law_ratio_up_to_one(larger, den);
    let (a, b) = (Double::ratio(smaller, den).size(), Double::ratio(larger, den).size());
    let d = den as nat;
    assert(y - x >= one) by (nonlinear_arith)
        requires
            x == smaller as nat * one,
            y == larger as nat * one,
            smaller < larger,
    ;
    assert(a < b) by (nonlinear_arith)
        requires
            a * d <= x + step * d,
            y <= b * d + step * d,
            y - x >= one,
            one == 9007199254740992 * step,
            0 < d <= 1000,
            step > 0,
    ;
}

/// A fraction of at most one lies within two to the power -53 of its exact value.
proof fn lemma_ratio_is_near(num: u64, den: u64)
    requires
        num <= den,
        0 < den,
    ensures
        ({
            let exact = num as nat * one_in_units();
            let size = Double::ratio(num, den).size();
            &&& size * den as nat <= exact + pow2(1021) * den as nat
            &&& exact <= size * den as nat + pow2(1021) * den as nat
        }),
{
    reveal(Double::spec_ratio);
    let one = one_in_units();
    let d = den as nat;
    let n = num as nat * one;
    let u = nearest(n, d);
    let step = pow2(1021);
    lemma_pow2_pos(1021);
    law_nearest_exists(n, d);
    law_ratio_up_to_one(num, den);
    lemma_one();
    lemma_rounded_value(false, n, d);
    lemma_sizes_order_patterns(u, 0x3ff0_0000_0000_0000);
    assert(rounds_to(n, d, u));
    let m = magnitude(u);
    if u > 0 {
        lemma_gap_up_to_one((u - 1) as nat);
        let b = magnitude((u - 1) as nat);
        assert(m * d <= n + step * d) by (nonlinear_arith)
            requires
                (b + m) * d <= 2 * n,
                m - b <= step,
        ;
    } else {
        assert(magnitude(0) == 0);
        assert(0 * d == 0);
        assert(step * d >= 0) by (nonlinear_arith);
    }
    if u < 0x3ff0_0000_0000_0000 {
        lemma_gap_up_to_one(u);
        let a = magnitude(u + 1);
        assert(n <= m * d + step * d) by (nonlinear_arith)
            requires
                2 * n <= (m + a) * d,
                a - m <= step,
        ;
    } else {
        assert(n <= m * d + step * d) by (nonlinear_arith)
            requires
                n == num as nat * one,
                num <= d,
                m == one,
        ;
    }
}

/// Two numbers of one value other than zero are the same.
pub proof fn law_value_determines_number(a: Double, b: Double)
    requires
        a.value() == b.value(),
        a.value() != 0,
    ensures
        a == b,
{
    lemma_sizes_order_patterns(a.pattern(), b.pattern());
    lemma_sizes_order_patterns(b.pattern(), a.pattern());
}

impl Double {
    /// A number from zero to one, without a sign.
    pub open spec fn in_unit_range(self) -> bool {
        !self.is_nan() && !self.negative() && self.size() <= Double::one().size()
    }

    /// A number that is neither less than zero nor more than one.
    pub open spec fn is_share(self) -> bool {
        Double::zero().le(self) && self.le(Double::one())
    }
}

/// A number up to one is finite.
pub proof fn lemma_share_is_finite(a: Double)
    requires
        a.in_unit_range(),
    ensures
        a.is_finite(),
        0 <= a.value() <= one_in_units(),
{
    lemma_one();
    lemma_sizes_order_patterns(0x3ff0_0000_0000_0000, a.pattern());
    if a.pattern() >= INFINITE {
        lemma_magnitude_increases(0x3ff0_0000_0000_0000, INFINITE as nat);
    }
}

/// A number of at most one in size is finite.
pub proof fn lemma_small_is_finite(a: Double)
    requires
        !a.is_nan(),
        a.size() <= Double::one().size(),
    ensures
        a.is_finite(),
{
    lemma_one();
    if a.pattern() >= INFINITE {
        lemma_magnitude_increases(0x3ff0_0000_0000_0000, INFINITE as nat);
    }
}

/// Two numbers from zero to one have a finite sum.
pub proof fn law_sums_of_shares_are_finite(a: Double, b: Double)
    requires
        !a.is_nan(),
        !b.is_nan(),
        0 <= a.value() <= Double::one().value(),
        0 <= b.value() <= Double::one().value(),
    ensures
        a.is_finite(),
        b.is_finite(),
        a.add(b).is_finite(),
{
    lemma_one();
    lemma_small_is_finite(a);
    lemma_small_is_finite(b);
    let one = Double::one();
    let two = Double::from_u64(2);
    lemma_two();
    lemma_size_of_two();
    lemma_pow2_pos(1074);
    law_sum_keeps_order(a, one, b);
    law_sum_keeps_order(b, one, one);
    law_sum_commutes(one, b);
    lemma_sum_is_not_negative(a, b);
    assert(one.add(one) == two) by {
        reveal(Double::spec_add);
        law_rounding_keeps_doubles(two.pattern());
        lemma_rounded_value(false, two.size(), 1);
        law_value_determines_number(one.add(one), two);
    }
    lemma_below_finite(a.add(b), two);
}

/// A quotient of a number without value has none.
pub proof fn law_quotient_of_no_value(a: Double, w: Double)
    requires
        a.is_finite(),
        a.value() == 0,
        w.is_finite(),
        w.value() > 0,
    ensures
        a.div(w).value() == 0,
        a.div(w).is_finite(),
{
    reveal(Double::spec_div);
    assert(magnitude(0) == 0);
    lemma_zero_over(w.size());
    assert(a.size() * one_in_units() == 0) by (nonlinear_arith)
        requires
            a.size() == 0,
    ;
}

/// A product with a number without value has none.
pub proof fn law_product_has_no_value(a: Double, b: Double)
    requires
        a.is_finite(),
        b.is_finite(),
        a.value() == 0,
    ensures
        a.mul(b).value() == 0,
        b.mul(a).value() == 0,
{
    reveal(Double::spec_mul);
    assert(magnitude(0) == 0);
    lemma_pow2_pos(1074);
    lemma_zero_over(one_in_units());
    assert(a.size() * b.size() == 0) by (nonlinear_arith)
        requires
            a.size() == 0,
    ;
    assert(b.size() * a.size() == 0) by (nonlinear_arith)
        requires
            a.size() == 0,
    ;
}

/// A fraction that is at most one.
pub proof fn law_ratio_up_to_one(num: u64, den: u64)
    requires
        0 < den,
        num <= den,
    ensures
        Double::ratio(num, den).is_finite(),
        Double::ratio(num, den).in_unit_range(),
{
    reveal(Double::spec_ratio);
    lemma_one();
    let one = one_in_units();
    law_rounding_keeps_doubles(0x3ff0_0000_0000_0000);
    assert((num * one) * 1 <= one * den) by (nonlinear_arith)
        requires
            num <= den,
    ;
    law_rounding_keeps_order(num as nat * one, den as nat, one, 1);
    lemma_sizes_order_patterns(nearest(num as nat * one, den as nat), 0x3ff0_0000_0000_0000);
}

/// A number that is at most one and not far above rounds to at most one.
pub proof fn law_sum_rounds_to_one(a: Double, b: Double)
    requires
        a.is_finite(),
        b.is_finite(),
        !a.negative(),
        !b.negative(),
        0 < a.size() + b.size() <= one_in_units() + pow2(1021),
    ensures
        a.add(b).in_unit_range(),
{
    reveal(Double::spec_add);
    lemma_one();
    let one: nat = 0x3ff0_0000_0000_0000;
    let f = FRACTION as nat;
    let n = (a.size() + b.size()) as nat;
    let m = one_in_units() + pow2(1021);
    lemma2_to64_rest();
    lemma_magnitude_of_mantissa(1022, f + 1);
    lemma_pow2_adds(52, 1022);
    lemma_pow2_unfold(1022);
    let step = pow2(1021);
    assert((f + 1) * (2 * step) == f * (2 * step) + 2 * step) by (nonlinear_arith);
    assert(1022 * f + (f + 1) == one + 1);
    lemma_magnitude_increases((one - 1) as nat, one);
    let below = magnitude((one - 1) as nat) + magnitude(one);
    let above = magnitude(one) + magnitude(one + 1);
    assert(below * 1 == below && above * 1 == above);
    assert(rounds_to(m, 1, one));
    lemma_nearest_is_unique(m, 1, one);
    assert(n * 1 <= m * 1);
    law_rounding_keeps_order(n, 1, m, 1);
    lemma_sizes_order_patterns(nearest(n, 1), one);
}

/// Up to one, neighbours on the grid are at most two to the power -53 apart.
proof fn lemma_gap_up_to_one(v: nat)
    requires
        v < 0x3ff0_0000_0000_0000,
    ensures
        magnitude(v + 1) - magnitude(v) <= pow2(1021),
{
    let f = FRACTION as nat;
    lemma_pow2_pos(1021);
    lemma2_to64();
    if v < f {
        lemma_magnitude_of_mantissa(0, v);
        lemma_magnitude_of_mantissa(0, v + 1);
        assert(v * 1 == v && (v + 1) * 1 == v + 1);
    } else {
        let t = (v / f - 1) as nat;
        let k = f + v % f;
        assert(v == t * f + k) by {
            assert(v == (v / f) * f + v % f);
            assert((t + 1) * f == t * f + f) by (nonlinear_arith);
        }
        lemma_magnitude_of_mantissa(t, k);
        lemma_magnitude_of_mantissa(t, k + 1);
        let p = pow2(t);
        assert((k + 1) * p - k * p == p) by (nonlinear_arith);
        if t < 1021 {
            lemma_pow2_strictly_increases(t, 1021);
        }
    }
}

/// The size of the number one.
pub proof fn lemma_one()
    ensures
        Double::one().pattern() == 0x3ff0_0000_0000_0000,
        !Double::one().negative(),
        Double::one().size() == one_in_units(),
        Double::one().value() == one_in_units(),
{
    let f = FRACTION as nat;
    lemma_magnitude_of_mantissa(1022, f);
    assert(1022 * f + f == 0x3ff0_0000_0000_0000);
    lemma2_to64_rest();
    lemma_pow2_adds(52, 1022);
}

/// The pattern nearest to a number up to one is at most two to the power -54 away.
proof fn lemma_near_up_to_one(n: nat)
    requires
        n <= one_in_units(),
    ensures
        nearest(n, 1) <= 0x3ff0_0000_0000_0000,
        2 * (magnitude(nearest(n, 1)) - n) <= pow2(1021),
        2 * (n - magnitude(nearest(n, 1))) <= pow2(1021),
{
    lemma_one();
    let one: nat = 0x3ff0_0000_0000_0000;
    law_rounding_keeps_doubles(one);
    assert(n * 1 <= magnitude(one) * 1);
    law_rounding_keeps_order(n, 1, magnitude(one), 1);
    law_nearest_exists(n, 1);
    let v = nearest(n, 1);
    lemma_pow2_pos(1021);
    if v > 0 {
        lemma_gap_up_to_one((v - 1) as nat);
        let below = magnitude((v - 1) as nat) + magnitude(v);
        assert(below * 1 == below);
    }
    if v < one {
        lemma_gap_up_to_one(v);
        let above = magnitude(v) + magnitude(v + 1);
        assert(above * 1 == above);
    }
}

/// A number from zero to one and its rounded distance from one add up to one.
pub proof fn law_complement_sums_to_one(p: Double)
    requires
        !p.is_nan(),
        !p.negative(),
        p.value() <= Double::one().value(),
    ensures
        ({
            let q = Double::one().sub(p);
            &&& p.add(q) == Double::one()
            &&& q.add(p) == Double::one()
            &&& !q.is_nan()
            &&& !q.negative()
            &&& q.value() <= Double::one().value()
            &&& 2 * (q.value() - (Double::one().value() - p.value())) <= pow2(1021)
            &&& 2 * ((Double::one().value() - p.value()) - q.value()) <= pow2(1021)
        }),
{
    reveal(Double::spec_add);
    reveal(Double::spec_neg);
    lemma_one();
    let one: nat = 0x3ff0_0000_0000_0000;
    let unit = one_in_units();
    lemma_pow2_pos(1074);
    if p.pattern() > one {
        lemma_magnitude_increases(one, p.pattern());
    }
    let n = (unit - p.size()) as nat;
    lemma_near_up_to_one(n);
    let q = Double::one().sub(p);
    let v = nearest(n, 1);
    assert(p.neg().value() == -p.value());
    if n == 0 {
        law_rounding_keeps_doubles(0);
        assert(magnitude(0) == 0);
        if p.pattern() < one {
            lemma_magnitude_increases(p.pattern(), one);
        }
        assert(p == Double::one());
        assert(q == Double::zero());
    } else {
        assert(q == Double::signed(false, v));
    }
    assert(q.pattern() == v && !q.negative());
    if v < one {
        lemma_magnitude_increases(v, one);
    }
    let sum = (p.size() + magnitude(v)) as nat;
    assert(sum > 0) by {
        lemma_pow2_strictly_increases(1021, 1074);
    }
    // The sum is within half a step of one.
    lemma_pow2_unfold(1022);
    lemma2_to64_rest();
    let f = FRACTION as nat;
    lemma_magnitude_of_mantissa(1021, (2 * f - 1) as nat);
    assert(1021 * f + (2 * f - 1) == one - 1);
    lemma_magnitude_of_mantissa(1022, f + 1);
    assert(1022 * f + (f + 1) == one + 1);
    lemma_pow2_adds(53, 1021);
    lemma_pow2_adds(52, 1022);
    let step = pow2(1021);
    assert(magnitude((one - 1) as nat) == unit - step) by {
        assert((2 * f - 1) * step == (2 * f) * step - step) by (nonlinear_arith);
    }
    assert(magnitude(one + 1) == unit + 2 * step) by {
        assert((f + 1) * (2 * step) == f * (2 * step) + 2 * step) by (nonlinear_arith);
    }
    let below = magnitude((one - 1) as nat) + magnitude(one);
    let above = magnitude(one) + magnitude(one + 1);
    assert(below * 1 == below && above * 1 == above);
    assert(rounds_to(sum, 1, one));
    lemma_nearest_is_unique(sum, 1, one);
    assert(p.add(q) == Double::signed(false, one));
    assert(q.add(p) == Double::signed(false, one));
}

} // verus!
