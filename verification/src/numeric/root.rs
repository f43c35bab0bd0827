//! The square root, rounded once.
use vstd::prelude::*;
use vstd::arithmetic::power2::{
    pow2, lemma_pow2_adds, lemma_pow2_pos, lemma_pow2_strictly_increases, lemma_pow2_unfold,
    lemma2_to64, lemma2_to64_rest,
};

use crate::numeric::arithmetic::{decode, one_in_units};
use crate::numeric::double::{Double, NAN_BITS};
use crate::numeric::rounding::{
    bit_length, lemma_magnitude_increases, lemma_magnitude_of_mantissa, magnitude, power_of_two,
    round, rounds_to, truncates_to, FRACTION, INFINITE,
};

verus! {

/// The pattern `u` is the grid point nearest to the root of `square`; a tie goes
/// to the even pattern.
pub open spec fn root_rounds_to(square: nat, u: nat) -> bool {
    &&& u <= INFINITE
    &&& u > 0 ==> {
        let below = magnitude((u - 1) as nat) + magnitude(u);
        if u % 2 == 0 {
            below * below <= 4 * square
        } else {
            below * below < 4 * square
        }
    }
    &&& u < INFINITE ==> {
        let above = magnitude(u) + magnitude(u + 1);
        if u % 2 == 0 {
            4 * square <= above * above
        } else {
            4 * square < above * above
        }
    }
}

/// The pattern of the double nearest to the root of `square`.
pub open spec fn nearest_root(square: nat) -> nat {
    choose|u: nat| root_rounds_to(square, u)
}

/// At most one pattern is nearest to a root.
pub proof fn lemma_nearest_root_is_unique(square: nat, u: nat)
    requires
        root_rounds_to(square, u),
    ensures
        nearest_root(square) == u,
{
    let v = nearest_root(square);
    assert(root_rounds_to(square, v));
    if u <= v {
        lemma_intervals_are_disjoint(square, u, v);
    } else {
        lemma_intervals_are_disjoint(square, v, u);
    }
}

proof fn lemma_intervals_are_disjoint(square: nat, u: nat, v: nat)
    requires
        u <= v,
        root_rounds_to(square, u),
        root_rounds_to(square, v),
    ensures
        u == v,
{
    if u < v {
        let above = magnitude(u) + magnitude(u + 1);
        let below = magnitude((v - 1) as nat) + magnitude(v);
        lemma_magnitude_increases(u, u + 1);
        lemma_magnitude_increases((v - 1) as nat, v);
        if u + 1 < v {
            lemma_magnitude_increases(u + 1, v);
            if u + 1 < v - 1 {
                lemma_magnitude_increases(u + 1, (v - 1) as nat);
            }
            assert(above * above < below * below) by (nonlinear_arith)
                requires
                    0 <= above < below,
            ;
        }
    }
}

/// The integer part of the root of a number of 121 or 122 bits.
fn integer_root(n: u128) -> (s: u128)
    requires
        pow2(120) <= n < pow2(122),
    ensures
        s * s <= n < (s + 1) * (s + 1),
        pow2(60) <= s < pow2(61),
{
    let mut s: u128 = 0;
    let mut bit: u32 = 61;
    proof {
        lemma_pow2_adds(61, 61);
        lemma2_to64_rest();
        let p = pow2(61);
        assert((0 + p) * (0 + p) == p * p) by (nonlinear_arith);
    }
    while bit > 0
        invariant
            bit <= 61,
            s * s <= n,
            n < (s + pow2(bit as nat)) * (s + pow2(bit as nat)),
            s + pow2(bit as nat) <= 0x2000_0000_0000_0000,
        decreases bit,
    {
        bit = bit - 1;
        let step: u128 = power_of_two(bit);
        proof {
            lemma_pow2_unfold((bit + 1) as nat);
            lemma_pow2_pos(bit as nat);
        }
        let next: u128 = s + step;
        assert(next * next <= 0x2000_0000_0000_0000 * 0x2000_0000_0000_0000) by (nonlinear_arith)
            requires
                next <= 0x2000_0000_0000_0000,
        ;
        if next * next <= n {
            s = next;
        }
    }
    proof {
        lemma2_to64();
        lemma2_to64_rest();
        if s < pow2(60) {
            lemma_pow2_adds(60, 60);
            assert((s + 1) * (s + 1) <= pow2(60) * pow2(60)) by (nonlinear_arith)
                requires
                    s + 1 <= pow2(60),
            ;
        }
    }
    s
}

/// Neighbours far up the grid are close.
proof fn lemma_neighbour(u: nat)
    requires
        magnitude(u + 1) > FRACTION,
    ensures
        magnitude(u + 1) <= 2 * magnitude(u),
{
    let f = FRACTION as nat;
    if u < f {
        if u + 1 < f {
            assert(magnitude(u + 1) == u + 1);
        } else {
            lemma_magnitude_of_mantissa(0, f);
            lemma2_to64();
            assert(f * 1 == f);
        }
    } else {
        let t = (u / f - 1) as nat;
        let k = f + u % f;
        assert(u == t * f + k) by {
            assert(u == (u / f) * f + u % f);
            assert((t + 1) * f == t * f + f) by (nonlinear_arith);
        }
        lemma_magnitude_of_mantissa(t, k);
        lemma_magnitude_of_mantissa(t, k + 1);
        let p = pow2(t);
        lemma_pow2_pos(t);
        assert((k + 1) * p <= 2 * (k * p)) by (nonlinear_arith)
            requires
                k >= 1,
                p > 0,
        ;
    }
}

/// Large grid points are multiples of a high power of two.
proof fn lemma_coarse(u: nat, h: nat) -> (q: nat)
    requires
        magnitude(u) >= pow2(58 + h),
    ensures
        magnitude(u) == q * pow2(h + 1),
{
    let f = FRACTION as nat;
    let e = u / f;
    let k = f + u % f;
    lemma2_to64();
    lemma2_to64_rest();
    lemma_pow2_pos(h);
    lemma_pow2_adds(58, h);
    if e == 0 {
        assert(pow2(58) * pow2(h) >= pow2(58)) by (nonlinear_arith)
            requires
                pow2(h) >= 1,
        ;
        assert(magnitude(u) == u % f);
    }
    let p = pow2((e - 1) as nat);
    if e - 1 < h + 1 {
        if e - 1 < h {
            lemma_pow2_strictly_increases((e - 1) as nat, h);
        }
        assert(k * p < pow2(53) * pow2(h)) by (nonlinear_arith)
            requires
                k < pow2(53),
                p <= pow2(h),
                pow2(h) > 0,
        ;
        assert(pow2(53) * pow2(h) <= pow2(58) * pow2(h)) by (nonlinear_arith)
            requires
                pow2(53) <= pow2(58),
                pow2(h) > 0,
        ;
    }
    let down = pow2((e - 1 - (h + 1)) as nat);
    lemma_pow2_adds((e - 1 - (h + 1)) as nat, h + 1);
    assert(k * (down * pow2(h + 1)) == (k * down) * pow2(h + 1)) by (nonlinear_arith);
    k * down
}

/// No boundary between grid points lies inside a unit of the truncated root, but
/// for its lower end.
proof fn lemma_boundary(u: nat, s: nat, h: nat)
    requires
        s >= pow2(60),
    ensures
        ({
            let b = magnitude(u) + magnitude(u + 1);
            let unit = pow2(h);
            b <= (2 * s) * unit || b >= (2 * s + 2) * unit
        }),
{
    let b = magnitude(u) + magnitude(u + 1);
    let unit = pow2(h);
    let wide = pow2(h + 1);
    lemma_pow2_pos(h);
    lemma_pow2_unfold(h + 1);
    lemma_pow2_adds(60, h);
    lemma_pow2_adds(58, h);
    lemma2_to64();
    lemma2_to64_rest();
    assert((2 * s) * unit == s * wide) by (nonlinear_arith)
        requires
            wide == 2 * unit,
    ;
    assert((2 * s + 2) * unit == (s + 1) * wide) by (nonlinear_arith)
        requires
            wide == 2 * unit,
    ;
    if b > s * wide {
        lemma_magnitude_increases(u, u + 1);
        assert(s * wide >= pow2(60) * (2 * unit)) by (nonlinear_arith)
            requires
                s >= pow2(60),
                wide == 2 * unit,
                unit > 0,
        ;
        assert(pow2(60) * (2 * unit) == 8 * (pow2(58) * unit)) by (nonlinear_arith)
            requires
                pow2(60) == 4 * pow2(58),
        ;
        assert(pow2(58) * unit >= pow2(58)) by (nonlinear_arith)
            requires
                unit >= 1,
        ;
        lemma_neighbour(u);
        let q1 = lemma_coarse(u, h);
        let q2 = lemma_coarse(u + 1, h);
        assert(q1 * wide + q2 * wide == (q1 + q2) * wide) by (nonlinear_arith);
        let q = q1 + q2;
        if q < s + 1 {
            assert(q * wide <= s * wide) by (nonlinear_arith)
                requires
                    q <= s,
                    wide > 0,
            ;
        }
        assert(q * wide >= (s + 1) * wide) by (nonlinear_arith)
            requires
                q >= s + 1,
                wide > 0,
        ;
    }
}

/// What is nearest to the middle of the unit that holds a root is nearest to it.
proof fn lemma_stand_in(square: nat, n: nat, s: nat, h: nat, u: nat, exact: bool)
    requires
        square == n * pow2(2 * h),
        s * s <= n < (s + 1) * (s + 1),
        s >= pow2(60),
        exact == (s * s == n),
        exact ==> rounds_to(s * pow2(h), 1, u),
        !exact ==> rounds_to((2 * s + 1) * pow2(h), 2, u),
    ensures
        root_rounds_to(square, u),
{
    let unit = pow2(h);
    lemma_pow2_pos(h);
    lemma_pow2_adds(h, h);
    let low = (2 * s) * unit;
    let high = (2 * s + 2) * unit;
    let wide = unit * unit;
    assert(low * low == 4 * ((s * s) * wide)) by (nonlinear_arith)
        requires
            low == (2 * s) * unit,
            wide == unit * unit,
    ;
    assert(high * high == 4 * (((s + 1) * (s + 1)) * wide)) by (nonlinear_arith)
        requires
            high == (2 * s + 2) * unit,
            wide == unit * unit,
    ;
    assert(wide > 0) by (nonlinear_arith)
        requires
            wide == unit * unit,
            unit > 0,
    ;
    let ss = s * s;
    let tt = (s + 1) * (s + 1);
    assert(ss * wide <= n * wide) by (nonlinear_arith)
        requires
            ss <= n,
            wide > 0,
    ;
    if !exact {
        assert(ss * wide < n * wide) by (nonlinear_arith)
            requires
                ss < n,
                wide > 0,
        ;
    }
    assert(n * wide < tt * wide) by (nonlinear_arith)
        requires
            n < tt,
            wide > 0,
    ;
    assert((2 * s + 1) * unit == low + unit && high == low + 2 * unit) by (nonlinear_arith)
        requires
            low == (2 * s) * unit,
            high == (2 * s + 2) * unit,
    ;
    assert(2 * (s * unit) == low) by (nonlinear_arith)
        requires
            low == (2 * s) * unit,
    ;
    if u > 0 {
        let b = magnitude((u - 1) as nat) + magnitude(u);
        lemma_boundary((u - 1) as nat, s, h);
        assert(b * 1 == b);
        assert(b <= low);
        assert(b * b <= low * low) by (nonlinear_arith)
            requires
                0 <= b <= low,
        ;
        if b < low {
            assert(b * b < low * low) by (nonlinear_arith)
                requires
                    0 <= b < low,
            ;
        }
    }
    if u < INFINITE {
        let b = magnitude(u) + magnitude(u + 1);
        lemma_boundary(u, s, h);
        assert(b * 1 == b);
        if exact {
            assert(b * b >= low * low) by (nonlinear_arith)
                requires
                    b >= low,
            ;
            if b > low {
                assert(b * b > low * low) by (nonlinear_arith)
                    requires
                        b > low,
                ;
            }
        } else {
            assert(b >= high);
            assert(b * b >= high * high) by (nonlinear_arith)
                requires
                    b >= high,
            ;
        }
    }
}

impl Double {
    #[verifier::opaque]
    pub open spec fn spec_sqrt(self) -> Double {
        if self.is_nan() {
            Double::nan()
        } else if self.pattern() == 0 {
            self
        } else if self.negative() {
            Double::nan()
        } else if self.is_infinite() {
            self
        } else {
            Double::signed(false, nearest_root(self.size() * one_in_units()))
        }
    }

    /// The square root.
    #[verifier::when_used_as_spec(spec_sqrt)]
    pub fn sqrt(self) -> (r: Double)
        ensures
            r == self.sqrt(),
    {
        reveal(Double::spec_sqrt);
        let u: u64 = self.unsigned_pattern();
        if u > INFINITE {
            return Double { bits: NAN_BITS };
        }
        if u == 0 {
            return self;
        }
        if self.has_sign() {
            return Double { bits: NAN_BITS };
        }
        if u == INFINITE {
            return self;
        }
        let (m, e) = decode(u);
        let length: u32 = bit_length(m as u128);
        proof {
            lemma2_to64();
            lemma2_to64_rest();
            if length > 53 {
                if length - 1 > 53 {
                    lemma_pow2_strictly_increases(53, (length - 1) as nat);
                }
            }
        }
        assert(0 < length <= 53);
        let spare: u32 = 121 - length;
        let up: u32 = if (e + 1074 - spare) % 2 == 0 {
            spare
        } else {
            spare + 1
        };
        let factor: u128 = power_of_two(up);
        proof {
            lemma_pow2_pos(up as nat);
            lemma_pow2_adds(length as nat, up as nat);
            lemma_pow2_adds((length - 1) as nat, up as nat);
            lemma_pow2_adds(64, 58);
            lemma_pow2_unfold(121);
            lemma_pow2_unfold(122);
            assert(m * factor < pow2(length as nat) * factor) by (nonlinear_arith)
                requires
                    m < pow2(length as nat),
                    factor > 0,
            ;
            assert(m * factor >= pow2((length - 1) as nat) * factor) by (nonlinear_arith)
                requires
                    m >= pow2((length - 1) as nat),
                    factor > 0,
            ;
        }
        let n: u128 = m as u128 * factor;
        let s: u128 = integer_root(n);
        assert(s * s < 0x2000_0000_0000_0000 * 0x2000_0000_0000_0000) by (nonlinear_arith)
            requires
                s < 0x2000_0000_0000_0000,
        ;
        let exact: bool = s * s == n;
        let h: u32 = (e + 1074 - up) / 2;
        let ghost square = self.size() * one_in_units();
        let ghost unit = pow2(h as nat);
        let ghost num = if exact {
            s as nat * unit
        } else {
            (2 * s as nat + 1) * unit
        };
        let ghost den: nat = if exact {
            1
        } else {
            2
        };
        proof {
            lemma_pow2_pos(h as nat);
            assert(2 * h + up == e + 1074);
            lemma_pow2_adds(e as nat, 1074);
            lemma_pow2_adds(up as nat, (2 * h) as nat);
            let p = pow2((2 * h) as nat);
            assert(square == n * p) by (nonlinear_arith)
                requires
                    square == (m * pow2(e as nat)) * pow2(1074),
                    pow2(e as nat) * pow2(1074) == factor * p,
                    n == m * factor,
            ;
            assert(num * 1 == num && unit * 1 == unit);
            assert(s as nat * (den * unit) <= num && num < (s as nat + 1) * (den * unit))
                by (nonlinear_arith)
                requires
                    den == 1 && num == s as nat * unit || den == 2 && num == (2 * s as nat + 1)
                        * unit,
                    unit > 0,
            ;
            if !exact {
                assert(num != s as nat * (den * unit)) by (nonlinear_arith)
                    requires
                        den == 2,
                        num == (2 * s as nat + 1) * unit,
                        unit > 0,
                ;
            } else {
                assert(num == s as nat * (den * unit)) by (nonlinear_arith)
                    requires
                        den == 1,
                        num == s as nat * unit,
                ;
            }
            assert(truncates_to(num, den, s as nat, h as int, !exact));
        }
        let r: u64 = round(s, h as i128, !exact, Ghost(num), Ghost(den));
        proof {
            lemma_stand_in(square, n as nat, s as nat, h as nat, r as nat, exact);
            lemma_nearest_root_is_unique(square, r as nat);
        }
        Double::with_sign(false, r)
    }
}

} // verus!
