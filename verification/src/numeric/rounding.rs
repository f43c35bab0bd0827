//! The grid of non-negative doubles and rounding to its nearest point.
//!
//! A non-negative double is named by its 63-bit pattern `u`. Read as a number,
//! the pattern stands for `magnitude(u)` units of two to the power -1074, which
//! is an exact integer for every finite double. The pattern of infinity reads as
//! the point one step above the largest finite double.
use vstd::prelude::*;
use vstd::arithmetic::power2::{
    pow2, lemma_pow2_adds, lemma_pow2_pos, lemma_pow2_strictly_increases, lemma_pow2_unfold,
    lemma2_to64, lemma2_to64_rest,
};

verus! {

/// Number of patterns that share one exponent.
pub const FRACTION: u64 = 0x10_0000_0000_0000;

/// Pattern of positive infinity, the top of the grid.
pub const INFINITE: u64 = 0x7ff0_0000_0000_0000;

/// Exponents beyond this limit are not met; it keeps their sums in range.
pub const EXPONENT_LIMIT: i128 = 0x10_0000_0000_0000_0000_0000_0000;

/// The value of the pattern `u`, in units of two to the power -1074.
pub open spec fn magnitude(u: nat) -> nat {
    let exponent = u / FRACTION as nat;
    let fraction = u % FRACTION as nat;
    if exponent == 0 {
        fraction
    } else {
        (FRACTION as nat + fraction) * pow2((exponent - 1) as nat)
    }
}

/// The pattern `u` is the grid point nearest to `num / den`; a tie goes to the
/// even pattern, and what lies beyond the largest finite double goes to infinity.
pub open spec fn rounds_to(num: nat, den: nat, u: nat) -> bool {
    &&& u <= INFINITE
    &&& u > 0 ==> {
        let below = (magnitude((u - 1) as nat) + magnitude(u)) * den;
        if u % 2 == 0 {
            below <= 2 * num
        } else {
            below < 2 * num
        }
    }
    &&& u < INFINITE ==> {
        let above = (magnitude(u) + magnitude(u + 1)) * den;
        if u % 2 == 0 {
            2 * num <= above
        } else {
            2 * num < above
        }
    }
}

/// The pattern of the double nearest to `num / den`.
pub open spec fn nearest(num: nat, den: nat) -> nat {
    choose|u: nat| rounds_to(num, den, u)
}

/// A mantissa `k` at the exponent `t` is the pattern `t * 2^52 + k`.
pub proof fn lemma_magnitude_of_mantissa(t: nat, k: nat)
    requires
        k <= 2 * FRACTION,
        t == 0 || k >= FRACTION,
    ensures
        magnitude(t * FRACTION as nat + k) == k * pow2(t),
{
    let u = t * FRACTION as nat + k;
    lemma2_to64();
    if k < FRACTION {
        assert(u == k);
    } else if k < 2 * FRACTION {
        assert(u / FRACTION as nat == t + 1);
        assert(u % FRACTION as nat == k - FRACTION);
    } else {
        assert(u / FRACTION as nat == t + 2);
        assert(u % FRACTION as nat == 0);
        lemma_pow2_unfold(t + 1);
        assert(FRACTION as nat * (2 * pow2(t)) == (2 * FRACTION as nat) * pow2(t))
            by (nonlinear_arith);
    }
}

/// A larger pattern stands for a larger number.
pub proof fn lemma_magnitude_increases(a: nat, b: nat)
    requires
        a < b,
    ensures
        magnitude(a) < magnitude(b),
{
    let f = FRACTION as nat;
    let ea = a / f;
    let eb = b / f;
    let ra = a % f;
    let rb = b % f;
    assert(a == ea * f + ra && b == eb * f + rb);
    if ea == eb {
        if ea > 0 {
            let p = pow2((ea - 1) as nat);
            lemma_pow2_pos((ea - 1) as nat);
            assert((f + ra) * p < (f + rb) * p) by (nonlinear_arith)
                requires
                    p > 0,
                    ra < rb,
            ;
        }
    } else {
        assert(ea < eb);
        let q = pow2((eb - 1) as nat);
        lemma_pow2_pos((eb - 1) as nat);
        assert(magnitude(b) >= f * q) by (nonlinear_arith)
            requires
                magnitude(b) == (f + rb) * q,
                q > 0,
                rb >= 0,
        ;
        if ea == 0 {
            assert(f * q >= f) by (nonlinear_arith)
                requires
                    q > 0,
            ;
        } else {
            let p = pow2((ea - 1) as nat);
            lemma_pow2_unfold(ea);
            assert(pow2(ea) == 2 * p);
            if ea < eb - 1 {
                lemma_pow2_strictly_increases(ea, (eb - 1) as nat);
            }
            assert(2 * p <= q);
            lemma_pow2_pos((ea - 1) as nat);
            assert((f + ra) * p < (2 * f) * p) by (nonlinear_arith)
                requires
                    ra < f,
                    p > 0,
            ;
            assert((2 * f) * p <= f * q) by (nonlinear_arith)
                requires
                    2 * p <= q,
            ;
        }
    }
}

/// At most one pattern is nearest to a number.
pub proof fn lemma_nearest_is_unique(num: nat, den: nat, u: nat)
    requires
        den > 0,
        rounds_to(num, den, u),
    ensures
        nearest(num, den) == u,
{
    let v = nearest(num, den);
    assert(rounds_to(num, den, v));
    if u <= v {
        lemma_intervals_are_disjoint(num, den, u, v);
    } else {
        lemma_intervals_are_disjoint(num, den, v, u);
    }
}

proof fn lemma_intervals_are_disjoint(num: nat, den: nat, u: nat, v: nat)
    requires
        den > 0,
        u <= v,
        rounds_to(num, den, u),
        rounds_to(num, den, v),
    ensures
        u == v,
{
    if u < v {
        let above = magnitude(u) + magnitude(u + 1);
        let below = magnitude((v - 1) as nat) + magnitude(v);
        lemma_magnitude_increases(u, u + 1);
        lemma_magnitude_increases((v - 1) as nat, v);
        if u + 1 < v {
            lemma_magnitude_increases(u + 1, v);
            if u + 1 < v - 1 {
                lemma_magnitude_increases(u + 1, (v - 1) as nat);
            }
            assert(above * den < below * den) by (nonlinear_arith)
                requires
                    above < below,
                    den > 0,
            ;
        }
    }
}

/// Two to the power `n`.
pub(crate) fn power_of_two(n: u32) -> (p: u128)
    requires
        n <= 127,
    ensures
        p == pow2(n as nat),
{
    let mut p: u128 = 1;
    let mut i: u32 = 0;
    proof {
        lemma2_to64();
    }
    while i < n
        invariant
            i <= n <= 127,
            p == pow2(i as nat),
        decreases n - i,
    {
        proof {
            lemma_pow2_unfold((i + 1) as nat);
            lemma_pow2_below_128(i as nat);
        }
        p = p * 2;
        i = i + 1;
    }
    p
}

/// Powers of two up to the 126th are below half of the largest 128-bit number.
proof fn lemma_pow2_below_128(i: nat)
    requires
        i <= 126,
    ensures
        pow2(i) <= 0x4000_0000_0000_0000_0000_0000_0000_0000,
{
    lemma2_to64();
    lemma2_to64_rest();
    lemma_pow2_adds(64, 62);
    if i < 126 {
        lemma_pow2_strictly_increases(i, 126);
    }
}

/// The number of binary digits of `m`.
pub(crate) fn bit_length(m: u128) -> (n: u32)
    ensures
        n <= 128,
        m == 0 ==> n == 0,
        m > 0 ==> n > 0 && pow2((n - 1) as nat) <= m && m < pow2(n as nat),
{
    let mut rest: u128 = m;
    let mut n: u32 = 0;
    let ghost mut low: nat = 0;
    proof {
        lemma2_to64();
    }
    while rest > 0
        invariant
            m == rest * pow2(n as nat) + low,
            low < pow2(n as nat),
            rest == 0 ==> m == 0 || (n > 0 && pow2((n - 1) as nat) <= m),
            n <= 128,
            rest > 0 ==> n < 128,
            m == 0 ==> rest == 0 && n == 0,
        decreases rest,
    {
        let next: u128 = rest / 2;
        proof {
            let p = pow2(n as nat);
            lemma_pow2_unfold((n + 1) as nat);
            lemma_pow2_pos(n as nat);
            let b = (rest % 2) as nat;
            assert(rest * p + low == next * (2 * p) + (b * p + low)) by (nonlinear_arith)
                requires
                    rest == 2 * next + b,
            ;
            assert(b * p + low < 2 * p) by (nonlinear_arith)
                requires
                    b <= 1,
                    low < p,
            ;
            if next == 0 {
                assert(rest * p == p) by (nonlinear_arith)
                    requires
                        rest == 1,
                ;
            } else {
                if n >= 127 {
                    lemma2_to64();
                    lemma2_to64_rest();
                    lemma_pow2_adds(64, 63);
                    assert(p == 0x8000_0000_0000_0000_0000_0000_0000_0000);
                    assert(rest * p >= 2 * p) by (nonlinear_arith)
                        requires
                            rest >= 2,
                            p > 0,
                    ;
                }
            }
            low = b * p + low;
        }
        rest = next;
        n = n + 1;
    }
    n
}

/// The number `num / den` lies in `[m * 2^e, (m + 1) * 2^e)`, at the lower end
/// exactly when `sticky` is false.
pub open spec fn truncates_to(num: nat, den: nat, m: nat, e: int, sticky: bool) -> bool {
    let scaled = num * pow2(if e < 0 { (-e) as nat } else { 0 });
    let unit = den * pow2(if e < 0 { 0 } else { e as nat });
    &&& if sticky { m * unit < scaled } else { m * unit == scaled }
    &&& scaled < (m + 1) * unit
}

/// Facts shared by the two roundings of `round`: with `unit` as the weight of one
/// step of `m`, a step of the kept mantissa weighs `d` of them.
proof fn lemma_weights(e: int, t: nat, drop: nat)
    requires
        t - e == drop,
    ensures
        ({
            let s = pow2(if e < 0 { (-e) as nat } else { 0 });
            let g = pow2(if e < 0 { 0 } else { e as nat });
            pow2(t) * s == pow2(drop) * g
        }),
{
    lemma2_to64();
    if e < 0 {
        lemma_pow2_adds(t, (-e) as nat);
        assert(pow2(drop) * 1 == pow2(drop));
    } else {
        lemma_pow2_adds(drop, e as nat);
        assert(pow2(t) * 1 == pow2(t));
    }
}

/// `k * 2^t <= num / den < (k + 1) * 2^t`, stated without division.
spec fn between(num: nat, den: nat, k: nat, t: nat) -> bool {
    k * (pow2(t) * den) <= num && num < (k + 1) * (pow2(t) * den)
}

/// Rounding down is right when `num / den` is in the lower half of the step,
/// or in its middle with an even mantissa below.
proof fn lemma_round_down(num: nat, den: nat, k: nat, t: nat)
    requires
        den > 0,
        k < 2 * FRACTION,
        t == 0 || k >= FRACTION,
        t * FRACTION + k <= INFINITE,
        between(num, den, k, t),
        2 * num <= (2 * k + 1) * (pow2(t) * den),
        k % 2 == 1 ==> 2 * num < (2 * k + 1) * (pow2(t) * den),
    ensures
        rounds_to(num, den, t * FRACTION as nat + k),
{
    let u = t * FRACTION as nat + k;
    let w = pow2(t);
    lemma_magnitude_of_mantissa(t, k);
    lemma_magnitude_of_mantissa(t, k + 1);
    assert(u % 2 == k % 2);
    assert((magnitude(u) + magnitude(u + 1)) * den == (2 * k + 1) * (w * den)) by (nonlinear_arith)
        requires
            magnitude(u) == k * w,
            magnitude(u + 1) == (k + 1) * w,
    ;
    if u > 0 {
        let prior = magnitude((u - 1) as nat);
        lemma_magnitude_increases((u - 1) as nat, u);
        assert((prior + magnitude(u)) * den < 2 * (magnitude(u) * den)) by (nonlinear_arith)
            requires
                prior < magnitude(u),
                den > 0,
        ;
        assert(magnitude(u) * den == k * (w * den)) by (nonlinear_arith)
            requires
                magnitude(u) == k * w,
        ;
    }
}

/// Rounding up is right when `num / den` is in the upper half of the step, or in
/// its middle with an odd mantissa below; beyond the grid it yields infinity.
proof fn lemma_round_up(num: nat, den: nat, k: nat, t: nat)
    requires
        den > 0,
        k < 2 * FRACTION,
        t == 0 || k >= FRACTION,
        between(num, den, k, t),
        2 * num >= (2 * k + 1) * (pow2(t) * den),
        k % 2 == 0 ==> 2 * num > (2 * k + 1) * (pow2(t) * den),
        t * FRACTION + k < INFINITE,
    ensures
        rounds_to(num, den, t * FRACTION as nat + k + 1),
{
    let u = t * FRACTION as nat + k;
    let w = pow2(t);
    lemma_magnitude_of_mantissa(t, k);
    lemma_magnitude_of_mantissa(t, k + 1);
    assert((u + 1) % 2 == (k + 1) % 2);
    assert((magnitude(u) + magnitude(u + 1)) * den == (2 * k + 1) * (w * den)) by (nonlinear_arith)
        requires
            magnitude(u) == k * w,
            magnitude(u + 1) == (k + 1) * w,
    ;
    let next = magnitude(u + 2);
    lemma_magnitude_increases(u + 1, u + 2);
    assert(2 * (magnitude(u + 1) * den) < (magnitude(u + 1) + next) * den) by (nonlinear_arith)
        requires
            magnitude(u + 1) < next,
            den > 0,
    ;
    assert(magnitude(u + 1) * den == (k + 1) * (w * den)) by (nonlinear_arith)
        requires
            magnitude(u + 1) == (k + 1) * w,
    ;
}

/// What lies at or above the top of the grid rounds to infinity.
proof fn lemma_round_overflow(num: nat, den: nat, k: nat, t: nat)
    requires
        den > 0,
        k < 2 * FRACTION,
        t == 0 || k >= FRACTION,
        k * (pow2(t) * den) <= num,
        t * FRACTION + k >= INFINITE,
    ensures
        rounds_to(num, den, INFINITE as nat),
{
    let u = t * FRACTION as nat + k;
    let w = pow2(t);
    let top = INFINITE as nat;
    lemma_magnitude_of_mantissa(t, k);
    lemma_magnitude_increases((top - 1) as nat, top);
    if top < u {
        lemma_magnitude_increases(top, u);
    }
    let prior = magnitude((top - 1) as nat);
    assert((prior + magnitude(top)) * den <= 2 * (magnitude(u) * den)) by (nonlinear_arith)
        requires
            prior < magnitude(top),
            magnitude(top) <= magnitude(u),
            den > 0,
    ;
    assert(magnitude(u) * den == k * (w * den)) by (nonlinear_arith)
        requires
            magnitude(u) == k * w,
    ;
}

/// From the truncation of `num / den` to `m` at the exponent `e`, what is known of
/// the kept mantissa `k = m / 2^drop` at the exponent `t = e + drop`.
proof fn lemma_kept(
    num: nat,
    den: nat,
    m: nat,
    e: int,
    sticky: bool,
    t: nat,
    drop: nat,
    k: nat,
    rem: nat,
)
    requires
        den > 0,
        truncates_to(num, den, m, e, sticky),
        t - e == drop,
        m == k * pow2(drop) + rem,
        rem < pow2(drop),
    ensures
        between(num, den, k, t),
        2 * rem < pow2(drop) && (sticky ==> 2 * rem + 2 <= pow2(drop)) ==> 2 * num < (2 * k + 1) * (pow2(t) * den),
        2 * rem > pow2(drop) || (2 * rem == pow2(drop) && sticky) ==> 2 * num > (2 * k + 1) * (
        pow2(t) * den),
        2 * rem == pow2(drop) && !sticky ==> 2 * num == (2 * k + 1) * (pow2(t) * den),
{
    let s = pow2(if e < 0 { (-e) as nat } else { 0 });
    let g = pow2(if e < 0 { 0 } else { e as nat });
    let d = pow2(drop);
    let w = pow2(t);
    let scaled = num * s;
    let unit = den * g;
    lemma_weights(e, t, drop);
    lemma_pow2_pos(drop);
    lemma_pow2_pos(if e < 0 { (-e) as nat } else { 0 });
    lemma_pow2_pos(if e < 0 { 0 } else { e as nat });
    assert(unit > 0) by (nonlinear_arith)
        requires
            den > 0,
            g > 0,
            unit == den * g,
    ;
    // One step of the kept mantissa, scaled by `s`, weighs `d` units.
    assert((w * den) * s == d * unit) by (nonlinear_arith)
        requires
            w * s == d * g,
            unit == den * g,
    ;
    assert(m * unit == k * (d * unit) + rem * unit) by (nonlinear_arith)
        requires
            m == k * d + rem,
    ;
    assert((m + 1) * unit == k * (d * unit) + rem * unit + unit) by (nonlinear_arith)
        requires
            m == k * d + rem,
    ;
    let step = d * unit;
    assert(rem * unit + unit <= step) by (nonlinear_arith)
        requires
            rem + 1 <= d,
            step == d * unit,
            unit > 0,
    ;
    assert(rem * unit >= 0) by (nonlinear_arith)
        requires
            unit > 0,
            rem >= 0,
    ;
    assert((k + 1) * step == k * step + step) by (nonlinear_arith);
    assert((2 * k + 1) * step == 2 * (k * step) + step) by (nonlinear_arith);
    lemma_scale(num, s, k, w * den, step);
    lemma_scale(num, s, k + 1, w * den, step);
    lemma_scale(2 * num, s, 2 * k + 1, w * den, step);
    assert((2 * num) * s == 2 * scaled) by (nonlinear_arith)
        requires
            scaled == num * s,
    ;
    if 2 * rem < d {
        if sticky {
            if 2 * rem + 2 <= d {
                assert(2 * (rem * unit) + 2 * unit <= step) by (nonlinear_arith)
                    requires
                        2 * rem + 2 <= d,
                        step == d * unit,
                        unit > 0,
                ;
            }
        } else {
            assert(2 * (rem * unit) < step) by (nonlinear_arith)
                requires
                    2 * rem < d,
                    step == d * unit,
                    unit > 0,
            ;
        }
    } else if 2 * rem > d {
        assert(2 * (rem * unit) > step) by (nonlinear_arith)
            requires
                2 * rem > d,
                step == d * unit,
                unit > 0,
        ;
    } else {
        assert(2 * (rem * unit) == step) by (nonlinear_arith)
            requires
                2 * rem == d,
                step == d * unit,
        ;
    }
}

/// Comparing `a` with `k * b` is comparing `a * s` with `k * c`, where `c = b * s`.
proof fn lemma_scale(a: nat, s: nat, k: nat, b: nat, c: nat)
    requires
        s > 0,
        c == b * s,
    ensures
        a * s < k * c <==> a < k * b,
        a * s > k * c <==> a > k * b,
{
    assert(k * c == (k * b) * s) by (nonlinear_arith)
        requires
            c == b * s,
    ;
    if a < k * b {
        assert(a * s < (k * b) * s) by (nonlinear_arith)
            requires
                a < k * b,
                s > 0,
        ;
    } else if a > k * b {
        assert(a * s > (k * b) * s) by (nonlinear_arith)
            requires
                a > k * b,
                s > 0,
        ;
    }
}

/// The pattern nearest to the number that `m`, `e` and `sticky` truncate.
///
/// A number that is not truncated exactly has to carry enough digits in `m` for
/// the rounding to be decided by them.
pub(crate) fn round(m: u128, e: i128, sticky: bool, Ghost(num): Ghost<nat>, Ghost(den): Ghost<nat>)
    -> (u: u64)
    requires
        den > 0,
        m < 0x4000_0000_0000_0000_0000_0000_0000_0000,
        sticky ==> m >= 4 * FRACTION,
        -EXPONENT_LIMIT <= e <= EXPONENT_LIMIT,
        truncates_to(num, den, m as nat, e as int, sticky),
    ensures
        rounds_to(num, den, u as nat),
{
    let length: u32 = bit_length(m);
    proof {
        lemma2_to64();
        lemma2_to64_rest();
        lemma_pow2_adds(64, 62);
        if length > 126 {
            if length - 1 > 126 {
                lemma_pow2_strictly_increases(126, (length - 1) as nat);
            }
        }
    }
    assert(length <= 126);
    let above: i128 = e + length as i128 - 53;
    let t: i128 = if above > 0 {
        above
    } else {
        0
    };
    if t <= e {
        // The whole of `m` fits into the mantissa.
        proof {
            if sticky {
                if length < 55 {
                    lemma_pow2_strictly_increases(length as nat, 55);
                }
            }
            assert(!sticky);
            lemma_pow2_adds((e - t) as nat, t as nat);
            lemma_pow2_adds(length as nat, (e - t) as nat);
            lemma_pow2_pos((e - t) as nat);
            assert(e - t <= 53 - length || m == 0);
        }
        if m == 0 {
            proof {
                lemma_zero(num, den, e as int);
            }
            return 0;
        }
        let up: u128 = power_of_two((e - t) as u32);
        proof {
            if length + (e - t) < 53 {
                lemma_pow2_strictly_increases((length + (e - t)) as nat, 53);
            }
            assert(m * up < pow2(53)) by (nonlinear_arith)
                requires
                    m < pow2(length as nat),
                    pow2(length as nat) * up <= pow2(53),
                    up > 0,
            ;
            assert(m * up >= 0);
            if t > 0 {
                lemma_pow2_adds((length - 1) as nat, (e - t) as nat);
                assert(m * up >= pow2(52)) by (nonlinear_arith)
                    requires
                        m >= pow2((length - 1) as nat),
                        pow2((length - 1) as nat) * up == pow2(52),
                ;
            }
        }
        let k: u64 = (m * up) as u64;
        proof {
            lemma_exact(num, den, m as nat, e as int, t as nat, k as nat, up as nat);
        }
        if t > 2045 || t as u64 * FRACTION + k >= INFINITE {
            proof {
                lemma_round_overflow(num, den, k as nat, t as nat);
            }
            return INFINITE;
        }
        proof {
            lemma_step_positive(t as nat, den);
            let b = pow2(t as nat) * den;
            assert((2 * k as nat + 1) * b == 2 * (k as nat * b) + b) by (nonlinear_arith);
            assert((k as nat + 1) * b == k as nat * b + b) by (nonlinear_arith);
            lemma_round_down(num, den, k as nat, t as nat);
        }
        return t as u64 * FRACTION + k;
    }
    let drop: i128 = t - e;
    if drop > 126 {
        proof {
            assert(t == 0);
            lemma_tiny(num, den, m as nat, e as int, sticky);
        }
        return 0;
    }
    let d: u128 = power_of_two(drop as u32);
    proof {
        lemma_pow2_pos(drop as nat);
        lemma_kept_range(m as nat, length as nat, e as int, t as nat, drop as nat);
    }
    let k: u64 = (m / d) as u64;
    let rem: u128 = m % d;
    proof {
        vstd::arithmetic::div_mod::lemma_fundamental_div_mod(m as int, d as int);
        assert(k as nat == m as nat / d as nat);
        assert(m as nat == k as nat * d as nat + rem as nat) by (nonlinear_arith)
            requires
                m as int == d as int * (m as int / d as int) + (m as int % d as int),
                k as nat == m as nat / d as nat,
                rem == m % d,
        ;
        lemma_kept(
            num,
            den,
            m as nat,
            e as int,
            sticky,
            t as nat,
            drop as nat,
            k as nat,
            rem as nat,
        );
    }
    if t > 2045 || t as u64 * FRACTION + k >= INFINITE {
        proof {
            lemma_round_overflow(num, den, k as nat, t as nat);
        }
        return INFINITE;
    }
    let half: u128 = d / 2;
    proof {
        lemma_pow2_unfold(drop as nat);
        assert(d == 2 * half);
    }
    if rem > half || (rem == half && (sticky || k % 2 == 1)) {
        proof {
            lemma_round_up(num, den, k as nat, t as nat);
        }
        t as u64 * FRACTION + k + 1
    } else {
        proof {
            lemma_round_down(num, den, k as nat, t as nat);
        }
        t as u64 * FRACTION + k
    }
}

proof fn lemma_step_positive(t: nat, den: nat)
    requires
        den > 0,
    ensures
        pow2(t) * den > 0,
{
    lemma_pow2_pos(t);
    assert(pow2(t) * den > 0) by (nonlinear_arith)
        requires
            pow2(t) > 0,
            den > 0,
    ;
}

proof fn lemma_zero(num: nat, den: nat, e: int)
    requires
        den > 0,
        truncates_to(num, den, 0, e, false),
    ensures
        rounds_to(num, den, 0),
{
    let s = pow2(if e < 0 { (-e) as nat } else { 0 });
    lemma_pow2_pos(if e < 0 { (-e) as nat } else { 0 });
    assert(num == 0) by (nonlinear_arith)
        requires
            num * s == 0,
            s > 0,
    ;
    lemma_magnitude_increases(0, 1);
    assert((magnitude(0) + magnitude(1)) * den >= 0) by (nonlinear_arith);
}

/// An exactly held number is its mantissa at its exponent.
proof fn lemma_exact(num: nat, den: nat, m: nat, e: int, t: nat, k: nat, up: nat)
    requires
        den > 0,
        truncates_to(num, den, m, e, false),
        0 <= t <= e,
        up == pow2((e - t) as nat),
        k == m * up,
    ensures
        num == k * (pow2(t) * den),
{
    lemma2_to64();
    lemma_pow2_adds((e - t) as nat, t);
    assert(num * 1 == num);
    assert(m * (den * pow2(e as nat)) == k * (pow2(t) * den)) by (nonlinear_arith)
        requires
            pow2(e as nat) == up * pow2(t),
            k == m * up,
    ;
}

/// A number below half of the smallest double rounds to zero.
proof fn lemma_tiny(num: nat, den: nat, m: nat, e: int, sticky: bool)
    requires
        den > 0,
        m < 0x4000_0000_0000_0000_0000_0000_0000_0000,
        e < -126,
        truncates_to(num, den, m, e, sticky),
    ensures
        rounds_to(num, den, 0),
{
    let s = pow2((-e) as nat);
    lemma2_to64();
    lemma2_to64_rest();
    lemma_pow2_adds(64, 62);
    lemma_pow2_unfold(127);
    if -e > 127 {
        lemma_pow2_strictly_increases(127, (-e) as nat);
    }
    assert(den * 1 == den);
    assert(2 * num < den) by (nonlinear_arith)
        requires
            num * s < (m + 1) * den,
            2 * (m + 1) <= s,
            den > 0,
    ;
    assert(magnitude(0) == 0 && magnitude(1) == 1);
    assert((magnitude(0) + magnitude(1)) * den == den) by (nonlinear_arith)
        requires
            magnitude(0) + magnitude(1) == 1,
    ;
}

/// The kept mantissa has at most 53 digits, and exactly that many above the
/// subnormal range.
proof fn lemma_kept_range(m: nat, length: nat, e: int, t: nat, drop: nat)
    requires
        m > 0 ==> length > 0 && pow2((length - 1) as nat) <= m,
        m < pow2(length),
        m == 0 ==> length == 0,
        t == if e + length - 53 > 0 { e + length - 53 } else { 0 },
        t - e == drop,
        drop > 0,
    ensures
        m / pow2(drop) < 2 * FRACTION,
        t == 0 || m / pow2(drop) >= FRACTION,
{
    let d = pow2(drop);
    let k = m / d;
    lemma2_to64();
    lemma2_to64_rest();
    lemma_pow2_pos(drop);
    vstd::arithmetic::div_mod::lemma_fundamental_div_mod(m as int, d as int);
    vstd::arithmetic::div_mod::lemma_mod_bound(m as int, d as int);
    let r = m % d;
    assert(m == d * k + r);
    lemma_pow2_adds(53, drop);
    assert(length <= 53 + drop);
    if length < 53 + drop {
        lemma_pow2_strictly_increases(length, 53 + drop);
    }
    assert(k < pow2(53)) by (nonlinear_arith)
        requires
            m == d * k + r,
            m < pow2(53) * d,
            r >= 0,
            d > 0,
    ;
    if t > 0 {
        assert(length == 53 + drop);
        lemma_pow2_adds(52, drop);
        assert(k >= pow2(52)) by (nonlinear_arith)
            requires
                m == d * k + r,
                m >= pow2(52) * d,
                r < d,
        ;
    }
}

} // verus!
