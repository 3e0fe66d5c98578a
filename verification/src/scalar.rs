//! Real numbers as IEEE-754 binary64 bit patterns.

use vstd::prelude::*;

verus! {

/// The sign bit of a double.
pub const SIGN_BIT: u64 = 0x8000_0000_0000_0000u64;

/// The pattern of positive infinity: every magnitude above it is a NaN.
pub const INFINITY_BITS: u64 = 0x7FF0_0000_0000_0000u64;

/// The pattern of `1.0`.
pub const ONE_BITS: u64 = 0x3FF0_0000_0000_0000u64;

/// The pattern of `-1.0`.
pub const MINUS_ONE_BITS: u64 = 0xBFF0_0000_0000_0000u64;

/// One real number, held as the bit pattern of an IEEE-754 double.
///
/// `==` on two scalars compares the patterns, so `0.0` and `-0.0` differ and a
/// NaN equals itself. The numeric comparisons are the methods below.
#[derive(Clone, Copy, Debug, PartialEq, Eq, Structural)]
pub struct Scalar {
    pub bits: u64,
}

impl Scalar {
    /// The pattern without its sign bit.
    pub open spec fn magnitude(self) -> int {
        if self.bits >= SIGN_BIT {
            self.bits - SIGN_BIT
        } else {
            self.bits as int
        }
    }

    /// Whether the sign bit is set.
    pub open spec fn sign_set(self) -> bool {
        self.bits >= SIGN_BIT
    }

    /// Whether the pattern is a NaN: exponent all ones, fraction not zero.
    pub open spec fn nan(self) -> bool {
        self.magnitude() > INFINITY_BITS
    }

    /// Whether the number is strictly greater than zero. False for a NaN.
    pub open spec fn positive(self) -> bool {
        !self.nan() && !self.sign_set() && self.magnitude() != 0
    }

    /// Whether the number is less than or equal to zero. False for a NaN;
    /// true for both zeros.
    pub open spec fn non_positive(self) -> bool {
        !self.nan() && (self.sign_set() || self.magnitude() == 0)
    }

    /// The place of a number that is no NaN in the order of the doubles: the
    /// magnitude, negated where the sign bit is set. Both zeros have place 0.
    pub open spec fn ordinal(self) -> int {
        if self.sign_set() {
            -self.magnitude()
        } else {
            self.magnitude()
        }
    }

    /// Whether `self < other` as doubles. False where either is a NaN.
    pub open spec fn lt(self, other: Scalar) -> bool {
        !self.nan() && !other.nan() && self.ordinal() < other.ordinal()
    }

    pub fn from_bits(bits: u64) -> (s: Scalar)
        ensures
            s.bits == bits,
    {
        Scalar { bits }
    }

    pub fn to_bits(self) -> (bits: u64)
        ensures
            bits == self.bits,
    {
        self.bits
    }

    /// Positive zero.
    pub fn zero() -> (s: Scalar)
        ensures
            s.bits == 0,
    {
        Scalar { bits: 0 }
    }

    /// The number one.
    pub fn one() -> (s: Scalar)
        ensures
            s.bits == ONE_BITS,
    {
        Scalar { bits: ONE_BITS }
    }

    /// The number minus one.
    pub fn minus_one() -> (s: Scalar)
        ensures
            s.bits == MINUS_ONE_BITS,
    {
        Scalar { bits: MINUS_ONE_BITS }
    }

    pub fn is_nan(self) -> (b: bool)
        ensures
            b == self.nan(),
    {
        if self.bits >= SIGN_BIT {
            self.bits - SIGN_BIT > INFINITY_BITS
        } else {
            self.bits > INFINITY_BITS
        }
    }

    pub fn is_positive(self) -> (b: bool)
        ensures
            b == self.positive(),
    {
        0 < self.bits && self.bits <= INFINITY_BITS
    }

    pub fn is_non_positive(self) -> (b: bool)
        ensures
            b == self.non_positive(),
    {
        self.bits == 0 || (self.bits >= SIGN_BIT && self.bits - SIGN_BIT <= INFINITY_BITS)
    }

    /// `self < other` as doubles.
    pub fn less_than(self, other: Scalar) -> (b: bool)
        ensures
            b == self.lt(other),
    {
        if self.is_nan() || other.is_nan() {
            return false;
        }
        let self_negative = self.bits >= SIGN_BIT;
        let other_negative = other.bits >= SIGN_BIT;
        if self_negative && other_negative {
            // Both below or at zero: the larger magnitude is the smaller number.
            self.bits > other.bits
        } else if self_negative {
            // A negative number is below every positive one; the two zeros tie.
            self.bits > SIGN_BIT || other.bits > 0
        } else if other_negative {
            false
        } else {
            self.bits < other.bits
        }
    }
}

} // verus!
