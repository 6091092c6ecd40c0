//! Ordering of double-precision numbers, read from their bit patterns.
//!
//! The tracing rules never compute with real numbers themselves; they only
//! compare them. A [`Scalar`] carries an IEEE 754 binary64 value as its 64
//! bits, and the comparisons here are the IEEE ones: the two zeros are equal,
//! and a value that is not a number compares false with everything.

use vstd::prelude::*;

verus! {

/// The sign bit of a binary64 bit pattern.
pub const SIGN_BIT: u64 = 0x8000_0000_0000_0000;

/// The bit pattern of positive infinity: every exponent bit set, no fraction bit.
pub const INFINITY_BITS: u64 = 0x7FF0_0000_0000_0000;

/// A binary64 number, held as its bit pattern.
#[derive(Clone, Copy, Debug, PartialEq, Eq, Structural)]
pub struct Scalar {
    pub bits: u64,
}

impl Scalar {
    /// The pattern without its sign bit. Among numbers of one sign, a larger
    /// magnitude is a larger absolute value.
    pub open spec fn magnitude(self) -> int {
        self.bits as int % 0x8000_0000_0000_0000
    }

    /// Whether the sign bit is set.
    pub open spec fn sign(self) -> bool {
        self.bits >= SIGN_BIT
    }

    /// Whether the pattern encodes no number at all (a NaN): its magnitude
    /// lies beyond that of infinity.
    pub open spec fn undefined(self) -> bool {
        self.magnitude() > INFINITY_BITS
    }

    /// The place of a number on the line from negative to positive infinity.
    /// Both zeros stand at 0. Meaningful only where `!self.undefined()`.
    pub open spec fn rank(self) -> int {
        if self.sign() {
            -self.magnitude()
        } else {
            self.magnitude()
        }
    }

    /// `self < other`.
    pub open spec fn less(self, other: Scalar) -> bool {
        !self.undefined() && !other.undefined() && self.rank() < other.rank()
    }

    /// `self <= other`.
    pub open spec fn less_eq(self, other: Scalar) -> bool {
        !self.undefined() && !other.undefined() && self.rank() <= other.rank()
    }

    /// `self > other`.
    pub open spec fn greater(self, other: Scalar) -> bool {
        other.less(self)
    }

    /// `self >= other`.
    pub open spec fn greater_eq(self, other: Scalar) -> bool {
        other.less_eq(self)
    }

    /// `self == other` as numbers: the zeros are equal whatever their sign,
    /// and an undefined value equals nothing, itself included.
    pub open spec fn equal(self, other: Scalar) -> bool {
        !self.undefined() && !other.undefined() && self.rank() == other.rank()
    }

    /// The scalar with the given bit pattern.
    pub fn from_bits(bits: u64) -> (r: Scalar)
        ensures
            r.bits == bits,
    {
        Scalar { bits }
    }

    /// The bit pattern of the scalar.
    pub fn to_bits(self) -> (r: u64)
        ensures
            r == self.bits,
    {
        self.bits
    }

    /// Positive zero.
    pub open spec fn spec_zero() -> Scalar {
        Scalar { bits: 0 }
    }

    /// Positive zero.
    #[verifier::when_used_as_spec(spec_zero)]
    pub fn zero() -> (r: Scalar)
        ensures
            r == Scalar::spec_zero(),
    {
        Scalar { bits: 0 }
    }

    /// Whether the scalar is not a number.
    pub fn is_nan(self) -> (r: bool)
        ensures
            r == self.undefined(),
    {
        self.bits % SIGN_BIT > INFINITY_BITS
    }

    /// `self < other`, false if either is not a number.
    pub fn lt(self, other: Scalar) -> (r: bool)
        ensures
            r == self.less(other),
    {
        if self.is_nan() || other.is_nan() {
            return false;
        }
        let a: u64 = self.bits % SIGN_BIT;
        let b: u64 = other.bits % SIGN_BIT;
        if self.bits >= SIGN_BIT {
            if other.bits >= SIGN_BIT {
                a > b
            } else {
                a > 0 || b > 0
            }
        } else {
            other.bits < SIGN_BIT && a < b
        }
    }

    /// `self <= other`, false if either is not a number.
    pub fn le(self, other: Scalar) -> (r: bool)
        ensures
            r == self.less_eq(other),
    {
        if self.is_nan() || other.is_nan() {
            return false;
        }
        let a: u64 = self.bits % SIGN_BIT;
        let b: u64 = other.bits % SIGN_BIT;
        if self.bits >= SIGN_BIT {
            other.bits < SIGN_BIT || a >= b
        } else {
            if other.bits >= SIGN_BIT {
                a == 0 && b == 0
            } else {
                a <= b
            }
        }
    }

    /// `self > other`, false if either is not a number.
    pub fn gt(self, other: Scalar) -> (r: bool)
        ensures
            r == self.greater(other),
    {
        other.lt(self)
    }

    /// `self >= other`, false if either is not a number.
    pub fn ge(self, other: Scalar) -> (r: bool)
        ensures
            r == self.greater_eq(other),
    {
        other.le(self)
    }

    /// `self == other` as numbers, false if either is not a number.
    pub fn eq_value(self, other: Scalar) -> (r: bool)
        ensures
            r == self.equal(other),
    {
        self.le(other) && other.le(self)
    }
}

/// Of two numbers exactly one is the lesser, or they are equal; against a
/// value that is not a number, nothing holds.
pub proof fn lemma_numbers_are_in_order(a: Scalar, b: Scalar)
    ensures
        !a.undefined() && !b.undefined() ==> {
            ||| a.less(b) && !a.equal(b) && !a.greater(b)
            ||| !a.less(b) && a.equal(b) && !a.greater(b)
            ||| !a.less(b) && !a.equal(b) && a.greater(b)
        },
        a.undefined() || b.undefined() ==> !a.less(b) && !a.less_eq(b) && !a.equal(b) && !a.greater_eq(b)
            && !a.greater(b),
        a.less_eq(b) <==> a.less(b) || a.equal(b),
        a.greater_eq(b) <==> a.greater(b) || a.equal(b),
{
}

/// The order goes on: what is below a number is below all that the number
/// is below or equal to.
pub proof fn lemma_order_is_transitive(a: Scalar, b: Scalar, c: Scalar)
    ensures
        a.less(b) && b.less_eq(c) ==> a.less(c),
        a.less_eq(b) && b.less(c) ==> a.less(c),
        a.less_eq(b) && b.less_eq(c) ==> a.less_eq(c),
        a.equal(b) && b.equal(c) ==> a.equal(c),
{
}

/// Among numbers without a sign bit, the order of the numbers is the order
/// of their bit patterns.
pub proof fn lemma_order_of_positive_patterns(a: Scalar, b: Scalar)
    requires
        a.bits <= INFINITY_BITS,
        b.bits <= INFINITY_BITS,
    ensures
        a.less(b) <==> a.bits < b.bits,
        a.equal(b) <==> a.bits == b.bits,
{
}

} // verus!
