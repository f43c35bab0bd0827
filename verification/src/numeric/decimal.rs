//! Reading decimal text as the nearest double.
use vstd::prelude::*;
use vstd::arithmetic::power2::{
    pow2, lemma_pow2_adds, lemma_pow2_pos, lemma_pow2_strictly_increases, lemma_pow2_unfold,
    lemma2_to64, lemma2_to64_rest,
};

use crate::numeric::arithmetic::{one_in_units, pack};
use crate::numeric::double::{Double, NAN_BITS};
use crate::numeric::natural::Natural;
use crate::numeric::order::law_nearest_exists;
use crate::numeric::rounding::{
    lemma_magnitude_increases, lemma_nearest_is_unique, magnitude, rounds_to, truncates_to,
    EXPONENT_LIMIT, FRACTION, INFINITE,
};
use crate::text::{chars_of, law_digits_stand_for_their_number, lower};

verus! {

/// Ten to the power `n`.
pub open spec fn ten_to(n: nat) -> nat
    decreases n,
{
    if n == 0 {
        1
    } else {
        10 * ten_to((n - 1) as nat)
    }
}

pub open spec fn is_digit(c: char) -> bool {
    '0' <= c && c <= '9'
}

pub open spec fn all_digits(s: Seq<char>) -> bool {
    forall|i: int| 0 <= i < s.len() ==> is_digit(#[trigger] s[i])
}

/// The number that a row of digits stands for.
pub open spec fn digits_value(s: Seq<char>) -> nat
    decreases s.len(),
{
    if s.len() == 0 {
        0
    } else {
        10 * digits_value(s.drop_last()) + (s.last() as nat - '0' as nat) as nat
    }
}

/// How many characters come before the first that is `a` or `b`.
pub open spec fn length_before(s: Seq<char>, a: char, b: char) -> nat
    decreases s.len(),
{
    if s.len() == 0 || s[0] == a || s[0] == b {
        0
    } else {
        1 + length_before(s.drop_first(), a, b)
    }
}

/// What an unsigned text stands for: infinity, no number, or `digits` times ten
/// to the power `exponent`.
pub enum Reading {
    Infinite,
    Undefined,
    Decimal { digits: nat, exponent: int },
}

/// An optional sign and at least one digit.
pub open spec fn signed_integer(s: Seq<char>) -> Option<int> {
    let rest = if s.len() > 0 && (s[0] == '+' || s[0] == '-') {
        s.skip(1)
    } else {
        s
    };
    if rest.len() == 0 || !all_digits(rest) {
        None
    } else if s[0] == '-' {
        Some(-(digits_value(rest) as int))
    } else {
        Some(digits_value(rest) as int)
    }
}

/// The text is the given word, in either case.
pub open spec fn is_word(s: Seq<char>, word: Seq<char>) -> bool {
    s.len() == word.len() && forall|i: int|
        0 <= i < s.len() ==> lower(#[trigger] s[i]) == word[i]
}

/// Digits with at most one point among or around them, and an optional exponent
/// after a letter `e`; or one of the words for infinity and for no number.
pub open spec fn unsigned_reading(s: Seq<char>) -> Option<Reading> {
    let e = length_before(s, 'e', 'E') as int;
    let mantissa = s.take(e);
    let p = length_before(mantissa, '.', '.') as int;
    let whole = mantissa.take(p);
    let fraction = if p < mantissa.len() {
        mantissa.skip(p + 1)
    } else {
        Seq::empty()
    };
    let power = if e < s.len() {
        signed_integer(s.skip(e + 1))
    } else {
        Some(0int)
    };
    if is_word(s, seq!['i', 'n', 'f']) || is_word(
        s,
        seq!['i', 'n', 'f', 'i', 'n', 'i', 't', 'y'],
    ) {
        Some(Reading::Infinite)
    } else if is_word(s, seq!['n', 'a', 'n']) {
        Some(Reading::Undefined)
    } else if whole.len() + fraction.len() > 0 && all_digits(whole) && all_digits(fraction)
        && power is Some {
        Some(
            Reading::Decimal {
                digits: digits_value(whole + fraction),
                exponent: power->0 - fraction.len(),
            },
        )
    } else {
        None
    }
}

impl Double {
    /// The number nearest to `digits` times ten to the power `exponent`.
    pub open spec fn of_decimal(negative: bool, digits: nat, exponent: int) -> Double {
        if exponent >= 0 {
            Double::rounded(negative, (digits * ten_to(exponent as nat)) * one_in_units(), 1)
        } else {
            Double::rounded(negative, digits * one_in_units(), ten_to((-exponent) as nat))
        }
    }

    /// What a text reads as: an optional sign before an unsigned reading.
    #[verifier::opaque]
    pub open spec fn reading(s: Seq<char>) -> Option<Double> {
        let signed = s.len() > 0 && (s[0] == '+' || s[0] == '-');
        let negative = signed && s[0] == '-';
        match unsigned_reading(if signed { s.skip(1) } else { s }) {
            None => None,
            Some(Reading::Infinite) => Some(Double::signed(negative, INFINITE as nat)),
            Some(Reading::Undefined) => Some(Double::signed(negative, NAN_BITS as nat)),
            Some(Reading::Decimal { digits, exponent }) => Some(
                Double::of_decimal(negative, digits, exponent),
            ),
        }
    }
}

proof fn lemma_ten_to_adds(a: nat, b: nat)
    ensures
        ten_to(a + b) == ten_to(a) * ten_to(b),
        ten_to(a) > 0,
    decreases a,
{
    if a > 0 {
        lemma_ten_to_adds((a - 1) as nat, b);
        let x = ten_to((a - 1) as nat);
        let y = ten_to(b);
        assert(10 * (x * y) == (10 * x) * y) by (nonlinear_arith);
        assert((a + b - 1) as nat == (a - 1) as nat + b);
    } else {
        assert(1 * ten_to(b) == ten_to(b));
    }
}

/// Ten to the power `n` lies between two to the powers `3 * n` and `4 * n`.
proof fn lemma_ten_to_bounds(n: nat)
    ensures
        pow2(3 * n) <= ten_to(n),
        ten_to(n) <= pow2(4 * n),
        ten_to(n) > 0,
    decreases n,
{
    lemma2_to64();
    if n > 0 {
        let k = (n - 1) as nat;
        lemma_ten_to_bounds(k);
        lemma_pow2_adds(3, 3 * k);
        lemma_pow2_adds(4, 4 * k);
    }
}

proof fn lemma_digits_bound(s: Seq<char>)
    requires
        all_digits(s),
    ensures
        digits_value(s) < ten_to(s.len()),
    decreases s.len(),
{
    if s.len() > 0 {
        assert(is_digit(s[s.len() - 1]));
        lemma_digits_bound(s.drop_last());
    }
}

/// A positive count of digits at a high exponent is beyond the grid.
proof fn lemma_huge(digits: nat, exponent: nat)
    requires
        digits > 0,
        exponent >= 342,
    ensures
        rounds_to((digits * ten_to(exponent)) * one_in_units(), 1, INFINITE as nat),
{
    let top = INFINITE as nat;
    let num = (digits * ten_to(exponent)) * one_in_units();
    lemma_ten_to_bounds(342);
    lemma_ten_to_adds((exponent - 342) as nat, 342);
    lemma_ten_to_adds((exponent - 342) as nat, 0);
    lemma2_to64();
    lemma2_to64_rest();
    lemma_pow2_adds(1026, 1074);
    lemma_pow2_adds(52, 2046);
    lemma_pow2_strictly_increases(2098, 2100);
    assert(top / FRACTION as nat == 2047 && top % FRACTION as nat == 0);
    assert(magnitude(top) == pow2(2098));
    let p = ten_to((exponent - 342) as nat);
    let w = ten_to(342);
    assert(digits * (p * w) >= w) by (nonlinear_arith)
        requires
            digits >= 1,
            p >= 1,
            w >= 0,
    ;
    lemma_pow2_pos(1074);
    assert(num >= pow2(1026) * pow2(1074)) by (nonlinear_arith)
        requires
            num == (digits * ten_to(exponent)) * pow2(1074),
            digits * ten_to(exponent) >= pow2(1026),
            pow2(1074) > 0,
    ;
    lemma_magnitude_increases((top - 1) as nat, top);
}

/// A number far below the smallest double rounds to zero.
proof fn lemma_minute(digits: nat, count: nat, down: nat)
    requires
        digits < ten_to(count),
        down >= count + 400,
    ensures
        rounds_to(digits * one_in_units(), ten_to(down), 0),
{
    let one = one_in_units();
    lemma_ten_to_bounds(400);
    lemma_ten_to_bounds(count);
    lemma_ten_to_adds(count, 400);
    lemma_ten_to_adds((down - count - 400) as nat, count + 400);
    lemma_pow2_unfold(1075);
    lemma_pow2_strictly_increases(1075, 1200);
    let a = ten_to((down - count - 400) as nat);
    let c = ten_to(count);
    let w = ten_to(400);
    lemma_ten_to_adds((down - count - 400) as nat, 0);
    assert(2 * (digits * one) <= c * w) by (nonlinear_arith)
        requires
            digits <= c,
            2 * one <= w,
    ;
    assert(c * w <= a * (c * w)) by (nonlinear_arith)
        requires
            a >= 1,
            c * w >= 0,
    ;
    assert(magnitude(0) == 0 && magnitude(1) == 1);
    let den = ten_to(down);
    assert((magnitude(0) + magnitude(1)) * den == den) by (nonlinear_arith)
        requires
            magnitude(0) + magnitude(1) == 1,
    ;
}

/// Binary long division of two naturals, read as a truncation of their quotient.
proof fn lemma_division(n0: nat, d0: nat, s: nat, t: nat, q: nat, r: nat, e: int)
    requires
        d0 > 0,
        n0 * pow2(s + 59) == q * (d0 * pow2(t)) + r,
        r < d0 * pow2(t),
        e == 1015 - s + t,
    ensures
        truncates_to(n0 * one_in_units(), d0, q, e, r != 0),
{
    let num = n0 * one_in_units();
    let scaled = num * pow2(if e < 0 { (-e) as nat } else { 0 });
    let unit = d0 * pow2(if e < 0 { 0 } else { e as nat });
    let two_t = pow2(t);
    let g = pow2(if e < 0 { 0 } else { e as nat });
    lemma2_to64();
    lemma_pow2_pos(t);
    lemma_pow2_pos(if e < 0 { 0 } else { e as nat });
    let big = pow2(s + 59);
    if e < 0 {
        let down = pow2((-e) as nat);
        lemma_pow2_adds(1074, (-e) as nat);
        lemma_pow2_adds((1074 - e) as nat, t);
        assert(1074 - e + t == s + 59);
        assert(scaled * two_t == n0 * big * g) by (nonlinear_arith)
            requires
                scaled == num * down,
                num == n0 * pow2(1074),
                pow2(1074) * down * two_t == big,
                g == 1,
        ;
    } else {
        lemma_pow2_adds(1074, t);
        lemma_pow2_adds(s + 59, e as nat);
        assert(1074 + t == s + 59 + e);
        assert(scaled * two_t == n0 * big * g) by (nonlinear_arith)
            requires
                scaled == num * 1,
                num == n0 * pow2(1074),
                pow2(1074) * two_t == big * g,
        ;
    }
    assert(unit * two_t == (d0 * two_t) * g) by (nonlinear_arith)
        requires
            unit == d0 * g,
    ;
    let wide = d0 * two_t;
    assert(n0 * big * g == q * (wide * g) + r * g) by (nonlinear_arith)
        requires
            n0 * big == q * wide + r,
    ;
    assert(r * g < wide * g) by (nonlinear_arith)
        requires
            r < wide,
            g > 0,
    ;
    assert(r == 0 ==> r * g == 0) by (nonlinear_arith);
    assert(r > 0 ==> r * g > 0) by (nonlinear_arith)
        requires
            g > 0,
    ;
    assert(q * (unit * two_t) == (q * unit) * two_t) by (nonlinear_arith);
    assert((q + 1) * unit * two_t == (q * unit) * two_t + unit * two_t) by (nonlinear_arith);
    let low = q * unit;
    let high = (q + 1) * unit;
    if scaled < low {
        assert(scaled * two_t < low * two_t) by (nonlinear_arith)
            requires
                scaled < low,
                two_t > 0,
        ;
    }
    if scaled >= high {
        assert(scaled * two_t >= high * two_t) by (nonlinear_arith)
            requires
                scaled >= high,
                two_t > 0,
        ;
    }
    if scaled > low {
        assert(scaled * two_t > low * two_t) by (nonlinear_arith)
            requires
                scaled > low,
                two_t > 0,
        ;
    }
}

proof fn lemma_exponent_below(s: nat, x: nat, limit: nat)
    requires
        pow2(s) <= x,
        x < pow2(limit),
    ensures
        s < limit,
{
    if s > limit {
        lemma_pow2_strictly_increases(limit, s);
    }
}

/// The double nearest to the quotient of two naturals.
fn natural_quotient(negative: bool, top: Natural, bottom: Natural, Ghost(limit): Ghost<nat>) -> (r:
    Double)
    requires
        top@ > 0,
        bottom@ > 0,
        top@ < pow2(limit),
        bottom@ < pow2(limit),
        limit < 0x10_0000_0000_0000_0000_0000,
    ensures
        r == Double::rounded(negative, top@ * one_in_units(), bottom@),
{
    let ghost n0 = top@;
    let ghost d0 = bottom@;
    let mut n: Natural = top;
    let mut d: Natural = bottom;
    let mut s: u128 = 0;
    let mut t: u128 = 0;
    proof {
        lemma2_to64();
        assert(n0 * 1 == n0 && d0 * 1 == d0);
    }
    // Double the numerator up to the denominator.
    while n.minus(&d).is_none()
        invariant
            n@ == n0 * pow2(s as nat),
            d@ == d0,
            n0 > 0,
            d0 < pow2(limit),
            limit < 0x10_0000_0000_0000_0000_0000,
            s <= limit,
            s > 0 ==> n@ < 2 * d@,
            n@ > 0,
        decreases 2 * d@ - n@,
    {
        proof {
            lemma_pow2_pos(s as nat);
            assert(n@ >= pow2(s as nat)) by (nonlinear_arith)
                requires
                    n@ == n0 * pow2(s as nat),
                    n0 >= 1,
            ;
            lemma_exponent_below(s as nat, n@, limit);
            lemma_pow2_unfold((s + 1) as nat);
            let p = pow2(s as nat);
            assert(n0 * p * 2 == n0 * (2 * p)) by (nonlinear_arith);
        }
        n = n.times_plus(2, 0);
        s = s + 1;
    }
    assert(n@ < pow2(limit + 1)) by {
        lemma_pow2_unfold(limit + 1);
        if s == 0 {
            lemma2_to64();
            assert(n0 * 1 == n0);
        }
    }
    // Double the denominator to within a factor of two of the numerator.
    let mut twice: Natural = d.times_plus(2, 0);
    while n.minus(&twice).is_some()
        invariant
            n@ < pow2(limit + 1),
            d@ == d0 * pow2(t as nat),
            twice@ == 2 * d@,
            d@ <= n@,
            d0 > 0,
            limit < 0x10_0000_0000_0000_0000_0000,
            t <= limit + 1,
        decreases n@ - d@,
    {
        proof {
            lemma_pow2_pos(t as nat);
            let p = pow2(t as nat);
            assert(d@ >= p) by (nonlinear_arith)
                requires
                    d@ == d0 * p,
                    d0 >= 1,
            ;
            lemma_exponent_below(t as nat, n@, limit + 1);
            lemma_pow2_unfold((t + 1) as nat);
            assert(2 * (d0 * p) == d0 * (2 * p)) by (nonlinear_arith);
            assert(d@ > 0);
        }
        d = twice;
        twice = d.times_plus(2, 0);
        t = t + 1;
    }
    let ghost wide = n@;
    let mut q: u128 = 1;
    let mut i: u32 = 0;
    let mut rem: Natural = match n.minus(&d) {
        Some(x) => x,
        None => n,
    };
    proof {
        lemma2_to64();
        assert(wide * 1 == wide && 1 * d@ == d@);
    }
    while i < 59
        invariant
            i <= 59,
            wide * pow2(i as nat) == q * d@ + rem@,
            rem@ < d@,
            pow2(i as nat) <= q,
            q < pow2((i + 1) as nat),
            pow2((i + 1) as nat) <= 0x1000_0000_0000_0000,
        decreases 59 - i,
    {
        let double: Natural = rem.times_plus(2, 0);
        proof {
            lemma_pow2_unfold((i + 1) as nat);
            lemma_pow2_unfold((i + 2) as nat);
            lemma2_to64();
            lemma2_to64_rest();
            if i + 2 < 60 {
                lemma_pow2_strictly_increases((i + 2) as nat, 60);
            }
            let p = pow2(i as nat);
            assert(wide * (2 * p) == 2 * (wide * p)) by (nonlinear_arith);
            assert((2 * q) * d@ == 2 * (q * d@)) by (nonlinear_arith);
            assert((2 * q + 1) * d@ == 2 * (q * d@) + d@) by (nonlinear_arith);
        }
        match double.minus(&d) {
            Some(x) => {
                rem = x;
                q = 2 * q + 1;
            },
            None => {
                rem = double;
                q = 2 * q;
            },
        }
        i = i + 1;
    }
    let sticky: bool = rem.minus(&Natural::small(1)).is_some();
    let e: i128 = 1015 - s as i128 + t as i128;
    proof {
        lemma2_to64_rest();
        lemma_pow2_adds(s as nat, 59);
        let p = pow2(s as nat);
        assert(wide * pow2(59) == n0 * pow2((s + 59) as nat)) by (nonlinear_arith)
            requires
                wide == n0 * p,
                pow2((s + 59) as nat) == p * pow2(59),
        ;
        lemma_division(n0, d0, s as nat, t as nat, q as nat, rem@, e as int);
    }
    pack(negative, q, e, sticky, Ghost(n0 * one_in_units()), Ghost(d0))
}

/// A natural times ten to the power `n`.
fn scaled_by_ten(start: Natural, n: u128) -> (r: Natural)
    ensures
        r@ == start@ * ten_to(n as nat),
{
    let mut r: Natural = start;
    let mut i: u128 = 0;
    proof {
        assert(start@ * 1 == start@);
    }
    while i < n
        invariant
            i <= n,
            r@ == start@ * ten_to(i as nat),
        decreases n - i,
    {
        proof {
            let p = ten_to(i as nat);
            assert(start@ * (10 * p) == (start@ * p) * 10) by (nonlinear_arith);
        }
        r = r.times_plus(10, 0);
        i = i + 1;
    }
    r
}

/// No digits but zeros give zero, whatever the exponent.
proof fn lemma_nothing(negative: bool, exponent: int)
    ensures
        Double::of_decimal(negative, 0, exponent) == Double::signed(negative, 0),
{
    lemma_magnitude_increases(0, 1);
    lemma_pow2_pos(1074);
    assert(0 * one_in_units() == 0);
    if exponent >= 0 {
        assert(0 * ten_to(exponent as nat) == 0);
        assert(rounds_to(0, 1, 0));
        lemma_nearest_is_unique(0, 1, 0);
    } else {
        let den = ten_to((-exponent) as nat);
        lemma_ten_to_bounds((-exponent) as nat);
        assert((magnitude(0) + magnitude(1)) * den >= 0) by (nonlinear_arith);
        assert(rounds_to(0, den, 0));
        lemma_nearest_is_unique(0, den, 0);
    }
}

proof fn lemma_beyond(negative: bool, digits: nat, exponent: int)
    requires
        digits > 0,
        exponent >= 342,
    ensures
        Double::of_decimal(negative, digits, exponent) == Double::signed(
            negative,
            INFINITE as nat,
        ),
{
    let num = (digits * ten_to(exponent as nat)) * one_in_units();
    lemma_huge(digits, exponent as nat);
    lemma_nearest_is_unique(num, 1, INFINITE as nat);
}

proof fn lemma_below(negative: bool, digits: nat, count: nat, exponent: int)
    requires
        digits < ten_to(count),
        exponent + count <= -400,
    ensures
        Double::of_decimal(negative, digits, exponent) == Double::signed(negative, 0),
{
    let down = (-exponent) as nat;
    lemma_ten_to_bounds(down);
    lemma_minute(digits, count, down);
    lemma_nearest_is_unique(digits * one_in_units(), ten_to(down), 0);
}

/// The double nearest to a decimal of `count` digits.
fn decimal(negative: bool, digits: Natural, count: usize, exponent: i128) -> (r: Double)
    requires
        digits@ < ten_to(count as nat),
        -EXPONENT_LIMIT <= exponent <= EXPONENT_LIMIT,
    ensures
        r == Double::of_decimal(negative, digits@, exponent as int),
{
    if digits.minus(&Natural::small(1)).is_none() {
        proof {
            lemma_nothing(negative, exponent as int);
        }
        return Double::with_sign(negative, 0);
    }
    if exponent >= 342 {
        proof {
            lemma_beyond(negative, digits@, exponent as int);
        }
        return Double::with_sign(negative, INFINITE);
    }
    if exponent + count as i128 <= -400 {
        proof {
            lemma_below(negative, digits@, count as nat, exponent as int);
        }
        return Double::with_sign(negative, 0);
    }
    let ghost limit: nat = (4 * (count + 400) + 1) as nat;
    proof {
        lemma_ten_to_bounds(count as nat);
        lemma_pow2_strictly_increases(4 * count as nat, limit);
    }
    if exponent >= 0 {
        let ghost small = digits@;
        let top: Natural = scaled_by_ten(digits, exponent as u128);
        proof {
            let p = ten_to(exponent as nat);
            lemma_ten_to_bounds(exponent as nat);
            lemma_ten_to_adds(count as nat, exponent as nat);
            lemma_ten_to_bounds((count + exponent) as nat);
            lemma_pow2_strictly_increases((4 * (count + exponent)) as nat, limit);
            assert(0 < small * p && small * p <= ten_to(count as nat) * p) by (nonlinear_arith)
                requires
                    0 < small <= ten_to(count as nat),
                    p > 0,
            ;
            lemma2_to64();
            lemma_pow2_strictly_increases(0, limit);
        }
        natural_quotient(negative, top, Natural::small(1), Ghost(limit))
    } else {
        let bottom: Natural = scaled_by_ten(Natural::small(1), (-exponent) as u128);
        proof {
            let down = (-exponent) as nat;
            lemma_ten_to_bounds(down);
            assert(1 * ten_to(down) == ten_to(down)) by (nonlinear_arith);
            assert(down == ((-exponent) as u128) as nat);
            lemma_pow2_strictly_increases(4 * down, limit);
        }
        natural_quotient(negative, digits, bottom, Ghost(limit))
    }
}

fn part(v: &Vec<char>, from: usize, to: usize) -> (r: Vec<char>)
    requires
        from <= to <= v.len(),
    ensures
        r@ == v@.subrange(from as int, to as int),
{
    let mut r: Vec<char> = Vec::new();
    let mut i: usize = from;
    while i < to
        invariant
            from <= i <= to <= v.len(),
            r@ == v@.subrange(from as int, i as int),
        decreases to - i,
    {
        r.push(v[i]);
        i = i + 1;
        assert(r@ =~= v@.subrange(from as int, i as int));
    }
    r
}

fn position(v: &Vec<char>, a: char, b: char) -> (r: usize)
    ensures
        r == length_before(v@, a, b),
        r <= v.len(),
{
    let mut i: usize = 0;
    assert(v@.skip(0) =~= v@);
    while i < v.len() && v[i] != a && v[i] != b
        invariant
            i <= v.len(),
            length_before(v@, a, b) == i + length_before(v@.skip(i as int), a, b),
        decreases v.len() - i,
    {
        assert(v@.skip(i as int).drop_first() =~= v@.skip(i + 1));
        i = i + 1;
    }
    i
}

fn only_digits(v: &Vec<char>) -> (r: bool)
    ensures
        r == all_digits(v@),
{
    let mut i: usize = 0;
    while i < v.len()
        invariant
            i <= v.len(),
            all_digits(v@.take(i as int)),
        decreases v.len() - i,
    {
        if !('0' <= v[i] && v[i] <= '9') {
            assert(!is_digit(v@[i as int]));
            return false;
        }
        assert(forall|j: int|
            0 <= j < i + 1 ==> (#[trigger] v@.take(i + 1)[j]) == if j < i {
                v@.take(i as int)[j]
            } else {
                v@[i as int]
            });
        i = i + 1;
    }
    assert(v@.take(i as int) =~= v@);
    true
}

fn whole_number(v: &Vec<char>) -> (r: Natural)
    requires
        all_digits(v@),
    ensures
        r@ == digits_value(v@),
{
    let mut r: Natural = Natural::small(0);
    let mut i: usize = 0;
    while i < v.len()
        invariant
            i <= v.len(),
            all_digits(v@),
            r@ == digits_value(v@.take(i as int)),
        decreases v.len() - i,
    {
        assert(is_digit(v@[i as int]));
        assert(v@.take(i + 1).drop_last() =~= v@.take(i as int));
        r = r.times_plus(10, v[i] as u32 - '0' as u32);
        i = i + 1;
    }
    assert(v@.take(i as int) =~= v@);
    r
}

proof fn lemma_digits_value_grows(s: Seq<char>, n: int)
    requires
        0 <= n <= s.len(),
    ensures
        digits_value(s.take(n)) <= digits_value(s),
    decreases s.len() - n,
{
    if n < s.len() {
        lemma_digits_value_grows(s, n + 1);
        assert(s.take(n + 1).drop_last() =~= s.take(n));
    } else {
        assert(s.take(n) =~= s);
    }
}

const EXPONENT_CAP: u128 = 1_000_000_000_000_000_000_000_000_000_000;

/// The number that digits stand for, but no more than the cap.
fn capped_number(v: &Vec<char>) -> (r: u128)
    requires
        all_digits(v@),
    ensures
        r == if digits_value(v@) < EXPONENT_CAP {
            digits_value(v@)
        } else {
            EXPONENT_CAP as nat
        },
{
    let mut r: u128 = 0;
    let mut i: usize = 0;
    while i < v.len()
        invariant
            i <= v.len(),
            all_digits(v@),
            r < EXPONENT_CAP,
            r == digits_value(v@.take(i as int)),
        decreases v.len() - i,
    {
        assert(is_digit(v@[i as int]));
        assert(v@.take(i + 1).drop_last() =~= v@.take(i as int));
        r = 10 * r + (v[i] as u32 - '0' as u32) as u128;
        i = i + 1;
        if r >= EXPONENT_CAP {
            proof {
                lemma_digits_value_grows(v@, i as int);
            }
            return EXPONENT_CAP;
        }
    }
    assert(v@.take(i as int) =~= v@);
    r
}

/// An exponent's text; beyond the cap on either side, the cap.
fn exponent_of(v: &Vec<char>) -> (r: Option<i128>)
    ensures
        r is Some <==> signed_integer(v@) is Some,
        r is Some ==> ({
            let p = signed_integer(v@)->0;
            r->0 == if p >= EXPONENT_CAP {
                EXPONENT_CAP as int
            } else if p <= -EXPONENT_CAP {
                -EXPONENT_CAP
            } else {
                p
            }
        }),
{
    let negative: bool = v.len() > 0 && v[0] == '-';
    let from: usize = if v.len() > 0 && (v[0] == '+' || v[0] == '-') {
        1
    } else {
        0
    };
    let rest: Vec<char> = part(v, from, v.len());
    assert(v@.skip(1) =~= v@.subrange(1, v@.len() as int) || v.len() == 0);
    assert(v@ =~= v@.subrange(0, v@.len() as int));
    if rest.len() == 0 || !only_digits(&rest) {
        return None;
    }
    let n: i128 = capped_number(&rest) as i128;
    if negative {
        Some(-n)
    } else {
        Some(n)
    }
}

/// Whether a text is a word, in either case; the word is in lower case.
fn reads_as(v: &Vec<char>, word: &Vec<char>) -> (r: bool)
    ensures
        r == is_word(v@, word@),
{
    if v.len() != word.len() {
        return false;
    }
    let mut i: usize = 0;
    while i < v.len()
        invariant
            i <= v.len() == word.len(),
            forall|j: int| 0 <= j < i ==> lower(#[trigger] v@[j]) == word@[j],
        decreases v.len() - i,
    {
        if lower(v[i]) != word[i] {
            assert(lower(v@[i as int]) != word@[i as int]);
            return false;
        }
        i = i + 1;
    }
    true
}

/// The value of digits and an exponent beyond or within the cap.
proof fn lemma_capped(negative: bool, digits: nat, count: nat, power: int, capped: int, scale: int)
    requires
        digits < ten_to(count),
        count <= usize::MAX,
        0 <= scale <= usize::MAX,
        capped == if power >= EXPONENT_CAP {
            EXPONENT_CAP as int
        } else if power <= -EXPONENT_CAP {
            -EXPONENT_CAP
        } else {
            power
        },
    ensures
        Double::of_decimal(negative, digits, power - scale) == Double::of_decimal(
            negative,
            digits,
            capped - scale,
        ),
{
    if digits == 0 {
        lemma_nothing(negative, power - scale);
        lemma_nothing(negative, capped - scale);
    } else if power >= EXPONENT_CAP {
        lemma_beyond(negative, digits, power - scale);
        lemma_beyond(negative, digits, capped - scale);
    } else if power <= -EXPONENT_CAP {
        lemma_below(negative, digits, count, power - scale);
        lemma_below(negative, digits, count, capped - scale);
    }
}

fn unsigned(negative: bool, v: &Vec<char>) -> (r: Option<Double>)
    ensures
        r == match unsigned_reading(v@) {
            None => None,
            Some(Reading::Infinite) => Some(Double::signed(negative, INFINITE as nat)),
            Some(Reading::Undefined) => Some(Double::signed(negative, NAN_BITS as nat)),
            Some(Reading::Decimal { digits, exponent }) => Some(
                Double::of_decimal(negative, digits, exponent),
            ),
        },
{
    let inf: Vec<char> = vec!['i', 'n', 'f'];
    let infinity: Vec<char> = vec!['i', 'n', 'f', 'i', 'n', 'i', 't', 'y'];
    let nan: Vec<char> = vec!['n', 'a', 'n'];
    assert(inf@ =~= seq!['i', 'n', 'f']);
    assert(infinity@ =~= seq!['i', 'n', 'f', 'i', 'n', 'i', 't', 'y']);
    assert(nan@ =~= seq!['n', 'a', 'n']);
    if reads_as(v, &inf) || reads_as(v, &infinity) {
        return Some(Double::with_sign(negative, INFINITE));
    }
    if reads_as(v, &nan) {
        return Some(Double::with_sign(negative, NAN_BITS));
    }
    let e: usize = position(v, 'e', 'E');
    let mantissa: Vec<char> = part(v, 0, e);
    assert(mantissa@ =~= v@.take(e as int));
    let p: usize = position(&mantissa, '.', '.');
    let whole: Vec<char> = part(&mantissa, 0, p);
    assert(whole@ =~= mantissa@.take(p as int));
    let fraction: Vec<char> = if p < mantissa.len() {
        part(&mantissa, p + 1, mantissa.len())
    } else {
        Vec::new()
    };
    assert(p < mantissa.len() ==> fraction@ =~= mantissa@.skip(p + 1));
    let power: Option<i128> = if e < v.len() {
        let text: Vec<char> = part(v, e + 1, v.len());
        assert(text@ =~= v@.skip(e + 1));
        exponent_of(&text)
    } else {
        Some(0)
    };
    if !only_digits(&whole) || !only_digits(&fraction) {
        return None;
    }
    let mut joined: Vec<char> = whole;
    let scale: usize = fraction.len();
    let mut i: usize = 0;
    let ghost front = whole@;
    while i < fraction.len()
        invariant
            i <= fraction.len(),
            joined@ == front + fraction@.take(i as int),
        decreases fraction.len() - i,
    {
        joined.push(fraction[i]);
        i = i + 1;
        assert(joined@ =~= front + fraction@.take(i as int));
    }
    assert(fraction@.take(i as int) =~= fraction@);
    if joined.len() == 0 {
        return None;
    }
    match power {
        None => None,
        Some(n) => {
            proof {
                assert forall|k: int| 0 <= k < joined@.len() implies is_digit(
                    #[trigger] joined@[k],
                ) by {
                    if k < front.len() {
                        assert(is_digit(front[k]));
                    } else {
                        assert(is_digit(fraction@[k - front.len()]));
                    }
                }
                lemma_digits_bound(joined@);
                let truth = if e < v.len() {
                    signed_integer(v@.skip(e + 1))->0
                } else {
                    0
                };
                lemma_capped(
                    negative,
                    digits_value(joined@),
                    joined@.len(),
                    truth,
                    n as int,
                    scale as int,
                );
            }
            let digits: Natural = whole_number(&joined);
            Some(decimal(negative, digits, joined.len(), n - scale as i128))
        },
    }
}

/// What a text reads as, as an unsigned integer up to a limit: digits, and an optional
/// plus before them.
pub open spec fn unsigned_integer(s: Seq<char>, max: u64) -> Option<u64> {
    let rest = if s.len() > 0 && s[0] == '+' {
        s.skip(1)
    } else {
        s
    };
    if rest.len() > 0 && all_digits(rest) && digits_value(rest) <= max {
        Some(digits_value(rest) as u64)
    } else {
        None
    }
}

/// Reads a text as an unsigned integer up to a limit.
pub fn parse_unsigned(text: &str, max: u64) -> (r: Option<u64>)
    ensures
        r == unsigned_integer(text@, max),
{
    let v: Vec<char> = chars_of(text);
    let from: usize = if v.len() > 0 && v[0] == '+' {
        1
    } else {
        0
    };
    let rest: Vec<char> = part(&v, from, v.len());
    assert(from == 1 ==> rest@ =~= v@.skip(1));
    assert(from == 0 ==> rest@ =~= v@);
    if rest.len() == 0 || !only_digits(&rest) {
        return None;
    }
    let n: u128 = capped_number(&rest);
    if n <= max as u128 {
        Some(n as u64)
    } else {
        None
    }
}

impl Double {
    /// Reads a text as the double nearest to what it stands for: decimal digits
    /// with an optional point and exponent, an infinity or no number.
    pub fn parse(text: &str) -> (r: Option<Double>)
        ensures
            r == Double::reading(text@),
    {
        proof {
            reveal(Double::reading);
        }
        let v: Vec<char> = chars_of(text);
        let signed: bool = v.len() > 0 && (v[0] == '+' || v[0] == '-');
        let negative: bool = signed && v[0] == '-';
        let rest: Vec<char> = part(
            &v,
            if signed {
                1
            } else {
                0
            },
            v.len(),
        );
        assert(signed ==> rest@ =~= v@.skip(1));
        assert(!signed ==> rest@ =~= v@);
        unsigned(negative, &rest)
    }
}

proof fn lemma_first_mark(s: Seq<char>, a: char, b: char, i: int)
    requires
        0 <= i <= s.len(),
        forall|j: int| 0 <= j < i ==> (#[trigger] s[j]) != a && s[j] != b,
        i < s.len() ==> s[i] == a || s[i] == b,
    ensures
        length_before(s, a, b) == i,
    decreases s.len(),
{
    if i > 0 {
        let rest = s.drop_first();
        assert(s[0] != a && s[0] != b);
        assert(forall|j: int| 0 <= j < rest.len() ==> rest[j] == s[j + 1]);
        lemma_first_mark(rest, a, b, i - 1);
    }
}

/// A row that starts with a digit is none of the words.
proof fn lemma_no_word(s: Seq<char>)
    requires
        s.len() > 0,
        is_digit(s[0]) || s[0] == '.',
    ensures
        !is_word(s, seq!['i', 'n', 'f']),
        !is_word(s, seq!['i', 'n', 'f', 'i', 'n', 'i', 't', 'y']),
        !is_word(s, seq!['n', 'a', 'n']),
{
    assert(lower(s[0]) == s[0]);
    assert(lower(s[0]) != 'i' && lower(s[0]) != 'n');
}

/// A number that is written in digits reads back as itself, as an integer up to the limit
/// and as the nearest double.
pub proof fn law_written_number_reads_back(n: u64, max: u64)
    ensures
        unsigned_integer(crate::text::decimal(n as nat), max) == if n <= max {
            Some(n)
        } else {
            None
        },
        Double::reading(crate::text::decimal(n as nat)) == Some(Double::from_u64(n)),
{
    let s = crate::text::decimal(n as nat);
    law_digits_stand_for_their_number(n as nat);
    assert(all_digits(s));
    assert(is_digit(s[0]));
    reveal(Double::reading);
    reveal(Double::spec_ratio);
    lemma_first_mark(s, 'e', 'E', s.len() as int);
    assert(s.take(s.len() as int) =~= s);
    lemma_first_mark(s, '.', '.', s.len() as int);
    lemma_no_word(s);
    assert(s + Seq::<char>::empty() =~= s);
    assert(ten_to(0) == 1);
    assert((n as nat * ten_to(0)) * one_in_units() == n as nat * one_in_units());
}

/// Two digits behind the point are hundredths, and a minus before a number that has no sign
/// makes the opposite of it.
pub proof fn law_digits_behind_the_point_are_hundredths(whole: Seq<char>, fraction: Seq<char>)
    requires
        all_digits(whole),
        all_digits(fraction),
        fraction.len() == 2,
        digits_value(whole + fraction) <= u64::MAX,
    ensures
        ({
            let text = whole + seq!['.'] + fraction;
            let x = Double::ratio(digits_value(whole + fraction) as u64, 100);
            &&& Double::reading(text) == Some(x)
            &&& Double::reading(seq!['-'] + text) matches Some(y) && y.value() == -x.value()
        }),
{
    let s = whole + seq!['.'] + fraction;
    let n = whole.len() as int;
    let d = digits_value(whole + fraction);
    reveal(Double::reading);
    reveal(Double::spec_ratio);
    assert forall|j: int| 0 <= j < s.len() implies is_digit(#[trigger] s[j]) || s[j] == '.' by {
        if j < n {
            assert(is_digit(whole[j]));
        } else if j > n {
            assert(is_digit(fraction[j - n - 1]));
        }
    }
    lemma_first_mark(s, 'e', 'E', s.len() as int);
    assert(s.take(s.len() as int) =~= s);
    assert forall|j: int| 0 <= j < n implies (#[trigger] s[j]) != '.' by {
        assert(is_digit(whole[j]));
    }
    lemma_first_mark(s, '.', '.', n);
    assert(s.take(n) =~= whole);
    assert(s.skip(n + 1) =~= fraction);
    lemma_no_word(s);
    assert(s[0] != '+' && s[0] != '-');
    reveal_with_fuel(ten_to, 3);
    assert(ten_to(2) == 100);
    let t = seq!['-'] + s;
    assert(t.skip(1) =~= s);
    assert(t[0] == '-');
    law_nearest_exists(d * one_in_units(), 100);
}

} // verus!
