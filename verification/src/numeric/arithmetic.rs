//! Sums, products, quotients and conversions: the exact result, rounded once.
use vstd::prelude::*;
use vstd::arithmetic::power2::{
    pow2, lemma_pow2_adds, lemma_pow2_pos, lemma_pow2_strictly_increases, lemma2_to64,
    lemma2_to64_rest,
};

use crate::numeric::double::{Double, NAN_BITS};
use crate::numeric::rounding::{
    bit_length, lemma_magnitude_increases, lemma_nearest_is_unique, magnitude,
    power_of_two, round, rounds_to, truncates_to, EXPONENT_LIMIT, FRACTION, INFINITE,
};

verus! {

/// Number of units of two to the power -1074 in one, as a power of two.
pub open spec fn one_in_units() -> nat {
    pow2(1074)
}

/// A finite pattern as a mantissa and an exponent.
pub(crate) fn decode(u: u64) -> (r: (u64, u32))
    requires
        u < INFINITE,
    ensures
        magnitude(u as nat) == r.0 * pow2(r.1 as nat),
        r.0 < 2 * FRACTION,
        r.1 <= 2045,
        r.1 > 0 ==> r.0 >= FRACTION,
        r.0 == 0 <==> u == 0,
{
    let exponent: u64 = u / FRACTION;
    let fraction: u64 = u % FRACTION;
    proof {
        lemma2_to64();
        assert(fraction as nat * 1 == fraction as nat);
    }
    if exponent == 0 {
        (fraction, 0)
    } else {
        (FRACTION + fraction, (exponent - 1) as u32)
    }
}

/// Rounds a truncated number and gives it a sign.
pub(crate) fn pack(
    negative: bool,
    m: u128,
    e: i128,
    sticky: bool,
    Ghost(num): Ghost<nat>,
    Ghost(den): Ghost<nat>,
) -> (r: Double)
    requires
        den > 0,
        m < 0x4000_0000_0000_0000_0000_0000_0000_0000,
        sticky ==> m >= 4 * FRACTION,
        -EXPONENT_LIMIT <= e <= EXPONENT_LIMIT,
        truncates_to(num, den, m as nat, e as int, sticky),
    ensures
        r == Double::rounded(negative, num, den),
{
    let u: u64 = round(m, e, sticky, Ghost(num), Ghost(den));
    proof {
        lemma_nearest_is_unique(num, den, u as nat);
    }
    Double::with_sign(negative, u)
}

/// A sum of two sizes with enough room between them: the smaller one only tells
/// whether the larger one is exact.
proof fn lemma_far_sum(m1: nat, e1: nat, m2: nat, e2: nat, num: nat, same: bool)
    requires
        m1 >= FRACTION,
        0 < m2 < 2 * FRACTION,
        e1 > e2 + 72,
        num == if same {
            m1 * pow2(e1) + m2 * pow2(e2)
        } else {
            (m1 * pow2(e1) - m2 * pow2(e2)) as nat
        },
        !same ==> m1 * pow2(e1) >= m2 * pow2(e2),
    ensures
        ({
            let m = m1 * pow2(20);
            truncates_to(num, 1, if same { m } else { (m - 1) as nat }, e1 - 20, true)
        }),
{
    let unit = pow2((e1 - 20) as nat);
    let m = m1 * pow2(20);
    lemma2_to64();
    lemma2_to64_rest();
    lemma_pow2_adds(20, (e1 - 20) as nat);
    lemma_pow2_adds(53, e2);
    lemma_pow2_strictly_increases(53 + e2, (e1 - 19) as nat);
    if 53 + e2 < e1 - 20 {
        lemma_pow2_strictly_increases(53 + e2, (e1 - 20) as nat);
    }
    lemma_pow2_pos(e2);
    let p2 = pow2(e2);
    assert(0 < m2 * p2 && m2 * p2 < pow2(53) * p2) by (nonlinear_arith)
        requires
            0 < m2 < pow2(53),
            p2 > 0,
    ;
    assert(m1 * pow2(e1) == m * unit) by (nonlinear_arith)
        requires
            pow2(e1) == pow2(20) * unit,
            m == m1 * pow2(20),
    ;
    assert(unit == 1 * unit);
    assert(num * 1 == num);
    assert((m + 1) * unit == m * unit + unit) by (nonlinear_arith);
    if !same {
        assert((m - 1) * unit == m * unit - unit) by (nonlinear_arith);
    }
}

/// A sum of two sizes that are close enough to be added exactly.
proof fn lemma_near_sum(m1: nat, e1: nat, m2: nat, e2: nat, up: nat, num: nat, m: nat, same: bool)
    requires
        e1 >= e2,
        up == pow2((e1 - e2) as nat),
        same ==> m == m1 * up + m2 && num == m1 * pow2(e1) + m2 * pow2(e2),
        !same && m1 * up >= m2 ==> m == m1 * up - m2,
        !same && m1 * up < m2 ==> m == m2 - m1 * up,
        !same ==> num == if m1 * pow2(e1) >= m2 * pow2(e2) {
            m1 * pow2(e1) - m2 * pow2(e2)
        } else {
            m2 * pow2(e2) - m1 * pow2(e1)
        },
    ensures
        truncates_to(num, 1, m, e2 as int, false),
        num == m * pow2(e2),
        m1 * up >= m2 <==> m1 * pow2(e1) >= m2 * pow2(e2),
        m1 * up == m2 <==> m1 * pow2(e1) == m2 * pow2(e2),
{
    let p = pow2(e2);
    lemma_pow2_adds((e1 - e2) as nat, e2);
    lemma_pow2_pos(e2);
    lemma2_to64();
    let a = m1 * up;
    assert(m1 * pow2(e1) == a * p) by (nonlinear_arith)
        requires
            pow2(e1) == up * p,
            a == m1 * up,
    ;
    assert((a + m2) * p == a * p + m2 * p) by (nonlinear_arith);
    assert((a - m2) * p == a * p - m2 * p) by (nonlinear_arith);
    assert((m2 - a) * p == m2 * p - a * p) by (nonlinear_arith);
    if a >= m2 {
        assert(a * p >= m2 * p) by (nonlinear_arith)
            requires
                a >= m2,
                p > 0,
        ;
        if a > m2 {
            assert(a * p > m2 * p) by (nonlinear_arith)
                requires
                    a > m2,
                    p > 0,
            ;
        }
    } else {
        assert(a * p < m2 * p) by (nonlinear_arith)
            requires
                a < m2,
                p > 0,
        ;
    }
    assert((m + 1) * p == m * p + p) by (nonlinear_arith);
    assert(1 * p == p);
    assert(num * 1 == num);
}

/// A normal mantissa scaled by two to the 72 dwarfs one that is 72 places lower.
proof fn lemma_far_order(m1: nat, e1: nat, m2: nat, e2: nat)
    requires
        m1 >= FRACTION,
        m2 < 2 * FRACTION,
        e1 > e2 + 72,
    ensures
        m1 * pow2(e1) > m2 * pow2(e2),
{
    lemma2_to64();
    lemma2_to64_rest();
    lemma_pow2_adds(53, e2);
    lemma_pow2_strictly_increases(53 + e2, e1);
    lemma_pow2_pos(e2);
    let p1 = pow2(e1);
    let p2 = pow2(e2);
    assert(m2 * p2 <= pow2(53) * p2) by (nonlinear_arith)
        requires
            m2 <= pow2(53),
            p2 > 0,
    ;
    assert(m1 * p1 >= p1) by (nonlinear_arith)
        requires
            m1 >= 1,
            p1 > 0,
    ;
}

impl Double {
    /// The exact sum, rounded. The undefined sum of opposite infinities is not a
    /// number; a sum of zero is negative only when both terms are.
    #[verifier::opaque]
    pub open spec fn spec_add(self, other: Double) -> Double {
        let exact = self.value() + other.value();
        if self.is_nan() || other.is_nan() {
            Double::nan()
        } else if self.is_infinite() {
            if other.is_infinite() && self.negative() != other.negative() {
                Double::nan()
            } else {
                self
            }
        } else if other.is_infinite() {
            other
        } else if exact == 0 {
            Double::signed(self.negative() && other.negative(), 0)
        } else {
            Double::rounded(exact < 0, (if exact < 0 { -exact } else { exact }) as nat, 1)
        }
    }

    /// The sum of two numbers.
    #[verifier::when_used_as_spec(spec_add)]
    pub fn add(self, other: Double) -> (r: Double)
        ensures
            r == self.add(other),
    {
        reveal(Double::spec_add);
        let a: u64 = self.unsigned_pattern();
        let b: u64 = other.unsigned_pattern();
        if a > INFINITE || b > INFINITE {
            return Double { bits: NAN_BITS };
        }
        if a == INFINITE {
            if b == INFINITE && self.has_sign() != other.has_sign() {
                return Double { bits: NAN_BITS };
            }
            return self;
        }
        if b == INFINITE {
            return other;
        }
        let (ma, ea) = decode(a);
        let (mb, eb) = decode(b);
        if ea >= eb {
            add_ordered(self, ma, ea, other, mb, eb)
        } else {
            add_ordered(other, mb, eb, self, ma, ea)
        }
    }

    /// The difference of two numbers: the sum with the second one negated.
    pub open spec fn spec_sub(self, other: Double) -> Double {
        self.add(other.neg())
    }

    /// The difference of two numbers.
    #[verifier::when_used_as_spec(spec_sub)]
    pub fn sub(self, other: Double) -> (r: Double)
        ensures
            r == self.sub(other),
    {
        self.add(other.neg())
    }

    /// The exact product, rounded. Zero times infinity is not a number.
    #[verifier::opaque]
    pub open spec fn spec_mul(self, other: Double) -> Double {
        let negative = self.negative() != other.negative();
        if self.is_nan() || other.is_nan() {
            Double::nan()
        } else if self.is_infinite() || other.is_infinite() {
            if self.pattern() == 0 || other.pattern() == 0 {
                Double::nan()
            } else {
                Double::signed(negative, INFINITE as nat)
            }
        } else {
            Double::rounded(negative, self.size() * other.size(), one_in_units())
        }
    }

    /// The product of two numbers.
    #[verifier::when_used_as_spec(spec_mul)]
    pub fn mul(self, other: Double) -> (r: Double)
        ensures
            r == self.mul(other),
    {
        reveal(Double::spec_mul);
        let a: u64 = self.unsigned_pattern();
        let b: u64 = other.unsigned_pattern();
        let negative: bool = self.has_sign() != other.has_sign();
        if a > INFINITE || b > INFINITE {
            return Double { bits: NAN_BITS };
        }
        if a == INFINITE || b == INFINITE {
            if a == 0 || b == 0 {
                return Double { bits: NAN_BITS };
            }
            return Double::with_sign(negative, INFINITE);
        }
        let (ma, ea) = decode(a);
        let (mb, eb) = decode(b);
        let ghost num = self.size() * other.size();
        let e: i128 = ea as i128 + eb as i128 - 1074;
        proof {
            assert(ma * mb < 0x4000_0000_0000_0000_0000_0000_0000_0000) by (nonlinear_arith)
                requires
                    ma < 0x20_0000_0000_0000,
                    mb < 0x20_0000_0000_0000,
            ;
            assert(ma * mb >= 0) by (nonlinear_arith);
        }
        let m: u128 = ma as u128 * mb as u128;
        proof {
            lemma_product(num, ma as nat, ea as nat, mb as nat, eb as nat, m as nat, e as int);
            lemma_pow2_pos(1074);
        }
        pack(negative, m, e, false, Ghost(num), Ghost(one_in_units()))
    }

    /// The exact quotient, rounded. Zero by zero and infinity by infinity are not
    /// numbers; anything else by zero is infinite.
    #[verifier::opaque]
    pub open spec fn spec_div(self, other: Double) -> Double {
        let negative = self.negative() != other.negative();
        if self.is_nan() || other.is_nan() {
            Double::nan()
        } else if self.is_infinite() {
            if other.is_infinite() {
                Double::nan()
            } else {
                Double::signed(negative, INFINITE as nat)
            }
        } else if other.is_infinite() {
            Double::signed(negative, 0)
        } else if other.pattern() == 0 {
            if self.pattern() == 0 {
                Double::nan()
            } else {
                Double::signed(negative, INFINITE as nat)
            }
        } else {
            Double::rounded(negative, self.size() * one_in_units(), other.size())
        }
    }

    /// The quotient of two numbers.
    #[verifier::when_used_as_spec(spec_div)]
    pub fn div(self, other: Double) -> (r: Double)
        ensures
            r == self.div(other),
    {
        reveal(Double::spec_div);
        let a: u64 = self.unsigned_pattern();
        let b: u64 = other.unsigned_pattern();
        let negative: bool = self.has_sign() != other.has_sign();
        if a > INFINITE || b > INFINITE {
            return Double { bits: NAN_BITS };
        }
        if a == INFINITE {
            if b == INFINITE {
                return Double { bits: NAN_BITS };
            }
            return Double::with_sign(negative, INFINITE);
        }
        if b == INFINITE {
            return Double::with_sign(negative, 0);
        }
        if b == 0 {
            if a == 0 {
                return Double { bits: NAN_BITS };
            }
            return Double::with_sign(negative, INFINITE);
        }
        let (ma, ea) = decode(a);
        let (mb, eb) = decode(b);
        let ghost num = self.size() * one_in_units();
        proof {
            lemma_pow2_pos(eb as nat);
            assert(mb * pow2(eb as nat) > 0) by (nonlinear_arith)
                requires
                    mb > 0,
                    pow2(eb as nat) > 0,
            ;
        }
        quotient(negative, ma, ea, mb, eb, Ghost(num), Ghost(other.size()))
    }

    /// The number nearest to `num / den`.
    #[verifier::opaque]
    pub open spec fn spec_ratio(num: u64, den: u64) -> Double {
        Double::rounded(false, num as nat * one_in_units(), den as nat)
    }

    /// The number nearest to a fraction of two integers, such as a decimal constant.
    #[verifier::when_used_as_spec(spec_ratio)]
    pub fn ratio(num: u64, den: u64) -> (r: Double)
        requires
            den > 0,
        ensures
            r == Double::ratio(num, den),
    {
        reveal(Double::spec_ratio);
        proof {
            lemma2_to64();
            assert(num as nat * 1 == num as nat && den as nat * 1 == den as nat);
        }
        quotient(
            false,
            num,
            0,
            den,
            0,
            Ghost(num as nat * one_in_units()),
            Ghost(den as nat),
        )
    }

    /// The number nearest to an integer.
    pub open spec fn spec_from_u64(n: u64) -> Double {
        Double::ratio(n, 1)
    }

    /// The number nearest to an integer.
    #[verifier::when_used_as_spec(spec_from_u64)]
    pub fn from_u64(n: u64) -> (r: Double)
        ensures
            r == Double::from_u64(n),
    {
        Double::ratio(n, 1)
    }

    /// The integer part, held to the range of the result; zero for what is not a number.
    #[verifier::opaque]
    pub open spec fn spec_to_u64(self) -> u64 {
        if self.is_nan() || self.negative() {
            0
        } else if self.is_infinite() || self.size() / one_in_units() > u64::MAX {
            u64::MAX
        } else {
            (self.size() / one_in_units()) as u64
        }
    }

    /// The integer part as an unsigned integer.
    #[verifier::when_used_as_spec(spec_to_u64)]
    pub fn to_u64(self) -> (r: u64)
        ensures
            r == self.to_u64(),
    {
        reveal(Double::spec_to_u64);
        let u: u64 = self.unsigned_pattern();
        if u > INFINITE || self.has_sign() {
            return 0;
        }
        if u == INFINITE {
            return u64::MAX;
        }
        integer_part(u)
    }

    /// The integer part, held to the range of the result; zero for what is not a number.
    #[verifier::opaque]
    pub open spec fn spec_to_i64(self) -> i64 {
        let whole = self.size() / one_in_units();
        if self.is_nan() {
            0
        } else if self.negative() {
            if self.is_infinite() || whole > 0x8000_0000_0000_0000 {
                i64::MIN
            } else {
                (-(whole as int)) as i64
            }
        } else if self.is_infinite() || whole > i64::MAX {
            i64::MAX
        } else {
            whole as i64
        }
    }

    /// The integer part as a signed integer.
    #[verifier::when_used_as_spec(spec_to_i64)]
    pub fn to_i64(self) -> (r: i64)
        ensures
            r == self.to_i64(),
    {
        reveal(Double::spec_to_i64);
        let u: u64 = self.unsigned_pattern();
        if u > INFINITE {
            return 0;
        }
        if u == INFINITE {
            return if self.has_sign() {
                i64::MIN
            } else {
                i64::MAX
            };
        }
        let whole: u64 = integer_part(u);
        if self.has_sign() {
            if whole >= 0x8000_0000_0000_0000 {
                i64::MIN
            } else {
                -(whole as i64)
            }
        } else if whole > 0x7fff_ffff_ffff_ffff {
            i64::MAX
        } else {
            whole as i64
        }
    }
}

/// The sum of two finite numbers, the first with the larger exponent.
fn add_ordered(x: Double, m1: u64, e1: u32, y: Double, m2: u64, e2: u32) -> (r: Double)
    requires
        x.is_finite(),
        y.is_finite(),
        x.size() == m1 * pow2(e1 as nat),
        y.size() == m2 * pow2(e2 as nat),
        m1 < 2 * FRACTION,
        m2 < 2 * FRACTION,
        e2 <= e1 <= 2045,
        e1 > 0 ==> m1 >= FRACTION,
    ensures
        r == x.add(y),
        r == y.add(x),
{
    reveal(Double::spec_add);
    let ghost exact = x.value() + y.value();
    let ghost num = (if exact < 0 {
        -exact
    } else {
        exact
    }) as nat;
    let same: bool = x.has_sign() == y.has_sign();
    if e1 - e2 > 72 {
        proof {
            lemma_far_order(m1 as nat, e1 as nat, m2 as nat, e2 as nat);
        }
        let m: u128 = m1 as u128 * 0x10_0000;
        let e: i128 = e1 as i128 - 20;
        proof {
            lemma2_to64();
        }
        if m2 == 0 {
            proof {
                lemma_single(m1 as nat, e1 as nat, num);
            }
            return pack(x.has_sign(), m, e, false, Ghost(num), Ghost(1));
        }
        proof {
            lemma_far_sum(m1 as nat, e1 as nat, m2 as nat, e2 as nat, num, same);
        }
        let kept: u128 = if same {
            m
        } else {
            m - 1
        };
        return pack(x.has_sign(), kept, e, true, Ghost(num), Ghost(1));
    }
    let up: u128 = power_of_two(e1 - e2);
    proof {
        lemma2_to64();
        lemma2_to64_rest();
        lemma_pow2_adds(64, 8);
        if e1 - e2 < 72 {
            lemma_pow2_strictly_increases((e1 - e2) as nat, 72);
        }
        assert(m1 * up < 0x2000_0000_0000_0000_0000_0000_0000_0000) by (nonlinear_arith)
            requires
                m1 < 0x20_0000_0000_0000,
                up <= 0x100_0000_0000_0000_0000,
        ;
        assert(m1 * up >= 0) by (nonlinear_arith);
    }
    let wide: u128 = m1 as u128 * up;
    let ghost w = (if same {
        wide + m2
    } else if wide >= m2 {
        wide - m2
    } else {
        m2 - wide
    }) as nat;
    proof {
        lemma_near_sum(
            m1 as nat,
            e1 as nat,
            m2 as nat,
            e2 as nat,
            up as nat,
            num,
            w,
            same,
        );
    }
    if same {
        let m: u128 = wide + m2 as u128;
        if m == 0 {
            proof {
                lemma_pow2_pos((e1 - e2) as nat);
                assert(m1 == 0) by (nonlinear_arith)
                    requires
                        m1 * up == 0,
                        up > 0,
                ;
                assert(m1 * pow2(e1 as nat) == 0) by (nonlinear_arith)
                    requires
                        m1 == 0,
                ;
                assert(m2 * pow2(e2 as nat) == 0) by (nonlinear_arith)
                    requires
                        m2 == 0,
                ;
            }
            return Double::with_sign(x.has_sign(), 0);
        }
        proof {
            lemma_pow2_pos(e2 as nat);
            assert(m * pow2(e2 as nat) > 0) by (nonlinear_arith)
                requires
                    m > 0,
                    pow2(e2 as nat) > 0,
            ;
        }
        return pack(x.has_sign(), m, e2 as i128, false, Ghost(num), Ghost(1));
    }
    if wide == m2 as u128 {
        return Double::zero();
    }
    if wide > m2 as u128 {
        pack(x.has_sign(), wide - m2 as u128, e2 as i128, false, Ghost(num), Ghost(1))
    } else {
        pack(y.has_sign(), m2 as u128 - wide, e2 as i128, false, Ghost(num), Ghost(1))
    }
}

/// A single mantissa written with twenty more places.
proof fn lemma_single(m1: nat, e1: nat, num: nat)
    requires
        e1 > 72,
        num == m1 * pow2(e1),
    ensures
        truncates_to(num, 1, m1 * 0x10_0000, e1 - 20, false),
{
    let unit = pow2((e1 - 20) as nat);
    lemma2_to64();
    lemma_pow2_adds(20, (e1 - 20) as nat);
    lemma_pow2_pos((e1 - 20) as nat);
    assert(m1 * pow2(e1) == (m1 * 0x10_0000) * unit) by (nonlinear_arith)
        requires
            pow2(e1) == 0x10_0000 * unit,
    ;
    assert((m1 * 0x10_0000 + 1) * unit == (m1 * 0x10_0000) * unit + unit) by (nonlinear_arith);
    assert(1 * unit == unit);
    assert(num * 1 == num);
}

/// The mantissas and exponents of two factors give those of their product.
proof fn lemma_product(num: nat, ma: nat, ea: nat, mb: nat, eb: nat, m: nat, e: int)
    requires
        num == (ma * pow2(ea)) * (mb * pow2(eb)),
        m == ma * mb,
        e == ea + eb - 1074,
    ensures
        truncates_to(num, one_in_units(), m, e, false),
{
    let p = pow2(ea);
    let q = pow2(eb);
    let one = one_in_units();
    lemma_pow2_adds(ea, eb);
    lemma_pow2_pos(1074);
    lemma2_to64();
    assert(num == m * (p * q)) by (nonlinear_arith)
        requires
            num == (ma * p) * (mb * q),
            m == ma * mb,
    ;
    let scaled = num * pow2(if e < 0 { (-e) as nat } else { 0 });
    let unit = one * pow2(if e < 0 { 0 } else { e as nat });
    if e < 0 {
        let s = pow2((-e) as nat);
        lemma_pow2_adds(ea + eb, (-e) as nat);
        assert(num * s == m * one) by (nonlinear_arith)
            requires
                num == m * (p * q),
                (p * q) * s == one,
        ;
        assert(unit == one) by (nonlinear_arith)
            requires
                unit == one * 1,
        ;
    } else {
        let g = pow2(e as nat);
        lemma_pow2_adds(1074, e as nat);
        lemma_pow2_pos(e as nat);
        assert(scaled == num) by (nonlinear_arith)
            requires
                scaled == num * 1,
        ;
        assert(unit > 0) by (nonlinear_arith)
            requires
                unit == one * g,
                one > 0,
                g > 0,
        ;
    }
    assert((m + 1) * unit == m * unit + unit) by (nonlinear_arith);
}

/// The quotient of two mantissas with their exponents, rounded.
fn quotient(
    negative: bool,
    m1: u64,
    e1: u32,
    m2: u64,
    e2: u32,
    Ghost(num): Ghost<nat>,
    Ghost(den): Ghost<nat>,
) -> (r: Double)
    requires
        m2 > 0,
        e1 <= 2045,
        e2 <= 2045,
        num == (m1 * pow2(e1 as nat)) * one_in_units(),
        den == m2 * pow2(e2 as nat),
    ensures
        r == Double::rounded(negative, num, den),
{
    proof {
        lemma_pow2_pos(e2 as nat);
        assert(m2 * pow2(e2 as nat) > 0) by (nonlinear_arith)
            requires
                m2 > 0,
                pow2(e2 as nat) > 0,
        ;
    }
    if m1 == 0 {
        proof {
            assert(num == 0) by (nonlinear_arith)
                requires
                    num == (m1 * pow2(e1 as nat)) * one_in_units(),
                    m1 == 0,
            ;
            lemma_magnitude_increases(0, 1);
            assert((magnitude(0) + magnitude(1)) * den >= 0) by (nonlinear_arith);
            assert(rounds_to(num, den, 0));
            lemma_nearest_is_unique(num, den, 0);
        }
        return Double::with_sign(negative, 0);
    }
    let length: u32 = bit_length(m1 as u128);
    proof {
        lemma2_to64();
        lemma2_to64_rest();
        if length > 64 {
            if length - 1 > 64 {
                lemma_pow2_strictly_increases(64, (length - 1) as nat);
            }
        }
    }
    let up: u32 = 125 - length;
    let factor: u128 = power_of_two(up);
    proof {
        lemma_pow2_adds(length as nat, up as nat);
        lemma_pow2_adds((length - 1) as nat, up as nat);
        lemma_pow2_adds(64, 61);
        lemma_pow2_adds(64, 60);
        lemma_pow2_pos(up as nat);
        assert(m1 * factor < pow2(125)) by (nonlinear_arith)
            requires
                m1 < pow2(length as nat),
                pow2(length as nat) * factor == pow2(125),
                factor > 0,
        ;
        assert(m1 * factor >= pow2(124)) by (nonlinear_arith)
            requires
                m1 >= pow2((length - 1) as nat),
                pow2((length - 1) as nat) * factor == pow2(124),
        ;
    }
    let wide: u128 = m1 as u128 * factor;
    let q: u128 = wide / m2 as u128;
    let rem: u128 = wide % m2 as u128;
    let e: i128 = e1 as i128 - e2 as i128 + 1074 - up as i128;
    proof {
        vstd::arithmetic::div_mod::lemma_fundamental_div_mod(wide as int, m2 as int);
        assert(q >= 4 * FRACTION) by (nonlinear_arith)
            requires
                wide == m2 * q + rem,
                rem < m2,
                m2 <= 0xffff_ffff_ffff_ffff,
                wide >= 0x1000_0000_0000_0000_0000_0000_0000_0000,
                FRACTION == 0x10_0000_0000_0000,
        ;
        assert(q <= wide) by (nonlinear_arith)
            requires
                wide == m2 * q + rem,
                m2 >= 1,
                rem >= 0,
        ;
        lemma_quotient(
            num,
            den,
            m1 as nat,
            e1 as nat,
            m2 as nat,
            e2 as nat,
            up as nat,
            q as nat,
            rem as nat,
            e as int,
        );
    }
    pack(negative, q, e, rem != 0, Ghost(num), Ghost(den))
}

/// Long division of the scaled mantissas truncates the quotient of the numbers.
proof fn lemma_quotient(
    num: nat,
    den: nat,
    m1: nat,
    e1: nat,
    m2: nat,
    e2: nat,
    up: nat,
    q: nat,
    rem: nat,
    e: int,
)
    requires
        m2 > 0,
        num == (m1 * pow2(e1)) * one_in_units(),
        den == m2 * pow2(e2),
        m1 * pow2(up) == m2 * q + rem,
        rem < m2,
        e == e1 - e2 + 1074 - up,
    ensures
        truncates_to(num, den, q, e, rem != 0),
{
    let one = one_in_units();
    let scaled = num * pow2(if e < 0 { (-e) as nat } else { 0 });
    let unit = den * pow2(if e < 0 { 0 } else { e as nat });
    let p = pow2(if e < 0 { e2 } else { (e2 + e) as nat });
    let wide = m1 * pow2(up);
    lemma2_to64();
    lemma_pow2_adds(e1, 1074);
    assert(num == m1 * pow2(e1 + 1074)) by (nonlinear_arith)
        requires
            num == (m1 * pow2(e1)) * one,
            pow2(e1 + 1074) == pow2(e1) * one,
    ;
    if e < 0 {
        let s = pow2((-e) as nat);
        lemma_pow2_adds(e1 + 1074, (-e) as nat);
        lemma_pow2_adds(up, e2);
        assert(e1 + 1074 + (-e) == up + e2);
        assert(scaled == wide * p) by (nonlinear_arith)
            requires
                scaled == num * s,
                num == m1 * pow2(e1 + 1074),
                pow2(e1 + 1074) * s == pow2(up) * p,
                wide == m1 * pow2(up),
        ;
        assert(unit == m2 * p) by (nonlinear_arith)
            requires
                unit == den * 1,
                den == m2 * p,
        ;
    } else {
        let g = pow2(e as nat);
        lemma_pow2_adds(e2, e as nat);
        lemma_pow2_adds(up, (e2 + e) as nat);
        assert(e1 + 1074 == up + (e2 + e));
        assert(scaled == wide * p) by (nonlinear_arith)
            requires
                scaled == num * 1,
                num == m1 * pow2(e1 + 1074),
                pow2(e1 + 1074) == pow2(up) * p,
                wide == m1 * pow2(up),
        ;
        assert(unit == m2 * p) by (nonlinear_arith)
            requires
                unit == den * g,
                den == m2 * pow2(e2),
                p == pow2(e2) * g,
        ;
    }
    lemma_pow2_pos(if e < 0 { e2 } else { (e2 + e) as nat });
    assert(scaled == q * unit + rem * p) by (nonlinear_arith)
        requires
            scaled == wide * p,
            wide == m2 * q + rem,
            unit == m2 * p,
    ;
    assert(rem * p < unit) by (nonlinear_arith)
        requires
            rem < m2,
            unit == m2 * p,
            p > 0,
    ;
    assert((q + 1) * unit == q * unit + unit) by (nonlinear_arith);
    if rem == 0 {
        assert(rem * p == 0) by (nonlinear_arith)
            requires
                rem == 0,
        ;
    } else {
        assert(rem * p > 0) by (nonlinear_arith)
            requires
                rem > 0,
                p > 0,
        ;
    }
}

/// The integer part of a finite size, held to the range of the result.
fn integer_part(u: u64) -> (r: u64)
    requires
        u < INFINITE,
    ensures
        magnitude(u as nat) / one_in_units() > u64::MAX ==> r == u64::MAX,
        magnitude(u as nat) / one_in_units() <= u64::MAX ==> r == magnitude(u as nat)
            / one_in_units(),
{
    let (m, e) = decode(u);
    let ghost one = one_in_units();
    let ghost size = magnitude(u as nat);
    proof {
        lemma_pow2_pos(1074);
        lemma2_to64();
        lemma2_to64_rest();
    }
    if e >= 1074 {
        proof {
            lemma_pow2_adds((e - 1074) as nat, 1074);
            lemma_pow2_pos((e - 1074) as nat);
        }
        let ghost up = pow2((e - 1074) as nat);
        proof {
            assert(size == (m * up) * one) by (nonlinear_arith)
                requires
                    size == m * pow2(e as nat),
                    pow2(e as nat) == up * one,
            ;
            vstd::arithmetic::div_mod::lemma_div_by_multiple((m * up) as int, one as int);
            assert(size / one == m * up);
        }
        if e - 1074 >= 64 {
            proof {
                if e - 1074 > 64 {
                    lemma_pow2_strictly_increases(64, (e - 1074) as nat);
                }
                assert(m * up >= up) by (nonlinear_arith)
                    requires
                        m >= 1,
                ;
            }
            return u64::MAX;
        }
        let factor: u128 = power_of_two(e - 1074);
        proof {
            if e - 1074 < 64 {
                lemma_pow2_strictly_increases((e - 1074) as nat, 64);
            }
            assert(m * up <= 0x20_0000_0000_0000 * 0x1_0000_0000_0000_0000) by (nonlinear_arith)
                requires
                    m <= 0x20_0000_0000_0000,
                    up <= 0x1_0000_0000_0000_0000,
            ;
            assert(m * up >= 0) by (nonlinear_arith);
        }
        let wide: u128 = m as u128 * factor;
        if wide > u64::MAX as u128 {
            u64::MAX
        } else {
            wide as u64
        }
    } else {
        let down: u32 = 1074 - e;
        proof {
            lemma_pow2_adds(e as nat, down as nat);
            lemma_pow2_pos(e as nat);
            lemma_pow2_pos(down as nat);
            let p = pow2(e as nat);
            let d = pow2(down as nat);
            assert(size == p * m as nat) by (nonlinear_arith)
                requires
                    size == m * p,
            ;
            vstd::arithmetic::div_mod::lemma_div_denominator(size as int, p as int, d as int);
            assert(size as int / p as int == m) by {
                assert(size == m * p) by (nonlinear_arith)
                    requires
                        size == p * m,
                ;
                vstd::arithmetic::div_mod::lemma_div_by_multiple(m as int, p as int);
            }
            assert(size / one == m as nat / d);
        }
        if down >= 64 {
            proof {
                if down > 64 {
                    lemma_pow2_strictly_increases(64, down as nat);
                }
                vstd::arithmetic::div_mod::lemma_basic_div(m as int, pow2(down as nat) as int);
            }
            return 0;
        }
        let d: u128 = power_of_two(down);
        proof {
            vstd::arithmetic::div_mod::lemma_div_nonincreasing(m as int, d as int);
        }
        (m as u128 / d) as u64
    }
}

} // verus!
