//! Double-precision numbers: their bits, their values, their order.
use vstd::prelude::*;

use crate::numeric::rounding::{lemma_magnitude_increases, magnitude, nearest, INFINITE};

verus! {

/// Weight of the sign bit.
pub const SIGN: u64 = 0x8000_0000_0000_0000;

/// Bits of the number that stands for an undefined result.
pub const NAN_BITS: u64 = 0x7ff8_0000_0000_0000;

/// An IEEE 754 double, held by its bits.
///
/// Equality of two `Double`s is equality of their bits; [`Double::equals`] is
/// equality of their values.
#[derive(Clone, Copy, Debug, PartialEq, Eq, Structural)]
pub struct Double {
    pub bits: u64,
}

impl Double {
    /// The sign bit is set.
    pub open spec fn negative(self) -> bool {
        self.bits >= SIGN
    }

    /// The bits without the sign.
    pub open spec fn pattern(self) -> nat {
        if self.negative() {
            (self.bits - SIGN) as nat
        } else {
            self.bits as nat
        }
    }

    pub open spec fn is_nan(self) -> bool {
        self.pattern() > INFINITE
    }

    pub open spec fn is_infinite(self) -> bool {
        self.pattern() == INFINITE
    }

    pub open spec fn is_finite(self) -> bool {
        self.pattern() < INFINITE
    }

    /// The size of the number, in units of two to the power -1074.
    pub open spec fn size(self) -> nat {
        magnitude(self.pattern())
    }

    /// The number itself, in units of two to the power -1074. Infinity reads as
    /// the point one step beyond the largest finite number.
    pub open spec fn value(self) -> int {
        if self.negative() {
            -(self.size() as int)
        } else {
            self.size() as int
        }
    }

    /// The number with the given sign and pattern.
    pub open spec fn signed(negative: bool, pattern: nat) -> Double {
        Double {
            bits: (if negative {
                SIGN + pattern
            } else {
                pattern as int
            }) as u64,
        }
    }

    /// The number nearest to `num / den` units of two to the power -1074.
    pub open spec fn rounded(negative: bool, num: nat, den: nat) -> Double {
        Double::signed(negative, nearest(num, den))
    }

    pub open spec fn nan() -> Double {
        Double { bits: NAN_BITS }
    }

    /// The number with these bits.
    pub fn from_bits(bits: u64) -> (r: Double)
        ensures
            r.bits == bits,
    {
        Double { bits }
    }

    /// The bits of this number.
    pub fn to_bits(self) -> (bits: u64)
        ensures
            bits == self.bits,
    {
        self.bits
    }

    pub(crate) fn has_sign(self) -> (r: bool)
        ensures
            r == self.negative(),
    {
        self.bits >= SIGN
    }

    pub(crate) fn unsigned_pattern(self) -> (u: u64)
        ensures
            u == self.pattern(),
            u < SIGN,
    {
        if self.bits >= SIGN {
            self.bits - SIGN
        } else {
            self.bits
        }
    }

    pub(crate) fn with_sign(negative: bool, pattern: u64) -> (r: Double)
        requires
            pattern < SIGN,
        ensures
            r == Double::signed(negative, pattern as nat),
            r.negative() == negative,
            r.pattern() == pattern,
    {
        if negative {
            Double { bits: SIGN + pattern }
        } else {
            Double { bits: pattern }
        }
    }

    /// Positive zero.
    #[verifier::when_used_as_spec(spec_zero)]
    pub fn zero() -> (r: Double)
        ensures
            r == Double::zero(),
    {
        Double { bits: 0 }
    }

    pub open spec fn spec_zero() -> Double {
        Double { bits: 0 }
    }

    /// Negative zero, which leaves every number unchanged when added to it.
    #[verifier::when_used_as_spec(spec_negative_zero)]
    pub fn negative_zero() -> (r: Double)
        ensures
            r == Double::negative_zero(),
    {
        Double { bits: SIGN }
    }

    pub open spec fn spec_negative_zero() -> Double {
        Double { bits: SIGN }
    }

    /// The number one.
    #[verifier::when_used_as_spec(spec_one)]
    pub fn one() -> (r: Double)
        ensures
            r == Double::one(),
    {
        Double { bits: 0x3ff0_0000_0000_0000 }
    }

    pub open spec fn spec_one() -> Double {
        Double { bits: 0x3ff0_0000_0000_0000 }
    }

    /// Strictly less; false when either side is not a number.
    #[verifier::when_used_as_spec(spec_lt)]
    pub fn lt(self, other: Double) -> (r: bool)
        ensures
            r == self.lt(other),
    {
        reveal(Double::spec_lt);
        let a: u64 = self.unsigned_pattern();
        let b: u64 = other.unsigned_pattern();
        proof {
            if a < b {
                lemma_magnitude_increases(a as nat, b as nat);
            }
            if b < a {
                lemma_magnitude_increases(b as nat, a as nat);
            }
            if a > 0 {
                lemma_magnitude_increases(0, a as nat);
            }
            if b > 0 {
                lemma_magnitude_increases(0, b as nat);
            }
            assert(magnitude(0) == 0);
        }
        if a > INFINITE || b > INFINITE {
            false
        } else if self.has_sign() {
            if other.has_sign() {
                b < a
            } else {
                a > 0 || b > 0
            }
        } else {
            !other.has_sign() && a < b
        }
    }

    #[verifier::opaque]
    pub open spec fn spec_lt(self, other: Double) -> bool {
        !self.is_nan() && !other.is_nan() && self.value() < other.value()
    }

    /// Strictly greater; false when either side is not a number.
    #[verifier::when_used_as_spec(spec_gt)]
    pub fn gt(self, other: Double) -> (r: bool)
        ensures
            r == self.gt(other),
    {
        other.lt(self)
    }

    pub open spec fn spec_gt(self, other: Double) -> bool {
        other.lt(self)
    }

    /// Equal values; false when either side is not a number.
    #[verifier::when_used_as_spec(spec_equals)]
    pub fn equals(self, other: Double) -> (r: bool)
        ensures
            r == self.equals(other),
    {
        reveal(Double::spec_equals);
        reveal(Double::spec_lt);
        let nan: bool = self.unsigned_pattern() > INFINITE || other.unsigned_pattern() > INFINITE;
        !nan && !self.lt(other) && !other.lt(self)
    }

    #[verifier::opaque]
    pub open spec fn spec_equals(self, other: Double) -> bool {
        !self.is_nan() && !other.is_nan() && self.value() == other.value()
    }

    /// Less or equal; false when either side is not a number.
    #[verifier::when_used_as_spec(spec_le)]
    pub fn le(self, other: Double) -> (r: bool)
        ensures
            r == self.le(other),
    {
        self.lt(other) || self.equals(other)
    }

    pub open spec fn spec_le(self, other: Double) -> bool {
        self.lt(other) || self.equals(other)
    }

    /// Greater or equal; false when either side is not a number.
    #[verifier::when_used_as_spec(spec_ge)]
    pub fn ge(self, other: Double) -> (r: bool)
        ensures
            r == self.ge(other),
    {
        other.le(self)
    }

    pub open spec fn spec_ge(self, other: Double) -> bool {
        other.le(self)
    }

    /// The number without its sign.
    #[verifier::when_used_as_spec(spec_abs)]
    pub fn abs(self) -> (r: Double)
        ensures
            r == self.abs(),
    {
        reveal(Double::spec_abs);
        Double { bits: self.unsigned_pattern() }
    }

    #[verifier::opaque]
    pub open spec fn spec_abs(self) -> Double {
        Double::signed(false, self.pattern())
    }

    /// The number with the opposite sign.
    #[verifier::when_used_as_spec(spec_neg)]
    pub fn neg(self) -> (r: Double)
        ensures
            r == self.neg(),
    {
        reveal(Double::spec_neg);
        Double::with_sign(!self.has_sign(), self.unsigned_pattern())
    }

    #[verifier::opaque]
    pub open spec fn spec_neg(self) -> Double {
        Double::signed(!self.negative(), self.pattern())
    }

    /// The smaller of the two; of a number and something that is not one, the number.
    #[verifier::when_used_as_spec(spec_min)]
    pub fn min(self, other: Double) -> (r: Double)
        ensures
            r == self.min(other),
    {
        if self.unsigned_pattern() > INFINITE || other.lt(self) {
            other
        } else {
            self
        }
    }

    pub open spec fn spec_min(self, other: Double) -> Double {
        if self.is_nan() || other.lt(self) {
            other
        } else {
            self
        }
    }

    /// The larger of the two; of a number and something that is not one, the number.
    #[verifier::when_used_as_spec(spec_max)]
    pub fn max(self, other: Double) -> (r: Double)
        ensures
            r == self.max(other),
    {
        if self.unsigned_pattern() > INFINITE || self.lt(other) {
            other
        } else {
            self
        }
    }

    pub open spec fn spec_max(self, other: Double) -> Double {
        if self.is_nan() || self.lt(other) {
            other
        } else {
            self
        }
    }

    /// The number held between two bounds.
    #[verifier::when_used_as_spec(spec_clamp)]
    pub fn clamp(self, low: Double, high: Double) -> (r: Double)
        ensures
            r == self.clamp(low, high),
    {
        if self.lt(low) {
            low
        } else if self.gt(high) {
            high
        } else {
            self
        }
    }

    pub open spec fn spec_clamp(self, low: Double, high: Double) -> Double {
        if self.lt(low) {
            low
        } else if self.gt(high) {
            high
        } else {
            self
        }
    }

    /// One with the sign of this number; not a number where this is not one.
    #[verifier::when_used_as_spec(spec_signum)]
    pub fn signum(self) -> (r: Double)
        ensures
            r == self.signum(),
    {
        if self.unsigned_pattern() > INFINITE {
            Double { bits: NAN_BITS }
        } else {
            Double::with_sign(self.has_sign(), 0x3ff0_0000_0000_0000)
        }
    }

    pub open spec fn spec_signum(self) -> Double {
        if self.is_nan() {
            Double::nan()
        } else {
            Double::signed(self.negative(), 0x3ff0_0000_0000_0000)
        }
    }
}

} // verus!
