//! Double-precision numbers as the library sees them: bit patterns with the
//! IEEE-754 ordering.
//!
//! Nothing in this crate adds, multiplies or rounds. Every quantity that a
//! renderer computes arrives here as the bit pattern of a binary64 value, and
//! what the crate does with it is compare, select and change the sign. Those
//! operations are exact on bit patterns, so they can be stated and proved over
//! integers.
use vstd::prelude::*;

verus! {

/// The bit pattern in which only the sign bit is set (negative zero).
pub const SIGN_BIT: u64 = 0x8000_0000_0000_0000;

/// The bit pattern of positive infinity. A magnitude above it is a NaN.
pub const INFINITY_BITS: u64 = 0x7ff0_0000_0000_0000;

/// The bit pattern of `1.0`.
pub const ONE_BITS: u64 = 0x3ff0_0000_0000_0000;

/// The bit pattern of `0.5`.
pub const HALF_BITS: u64 = 0x3fe0_0000_0000_0000;

/// The bit pattern of the largest finite value.
pub const MAX_BITS: u64 = 0x7fef_ffff_ffff_ffff;

/// A binary64 number held by its bit pattern.
///
/// `==` on a `Scalar` in a contract is equality of bit patterns. The numeric
/// relations, under which a NaN is unordered and the two zeros are equal, are
/// [`Scalar::less`], [`Scalar::at_most`] and [`Scalar::same`].
#[derive(Clone, Copy, Debug)]
pub struct Scalar {
    pub bits: u64,
}

impl Scalar {
    /// The bit pattern without its sign bit.
    pub open spec fn magnitude(self) -> int {
        if self.bits >= SIGN_BIT {
            self.bits - SIGN_BIT
        } else {
            self.bits as int
        }
    }

    /// Whether the sign bit is set. Holds of negative zero and of some NaNs too.
    pub open spec fn sign(self) -> bool {
        self.bits >= SIGN_BIT
    }

    /// Whether the pattern encodes a NaN.
    pub open spec fn nan(self) -> bool {
        self.magnitude() > INFINITY_BITS
    }

    /// Whether the pattern encodes positive or negative infinity.
    pub open spec fn infinite(self) -> bool {
        self.magnitude() == INFINITY_BITS
    }

    /// The place of a number on the line: for two patterns that are not NaN,
    /// the encoded values compare as their ranks do. Both zeros have rank 0.
    pub open spec fn rank(self) -> int {
        if self.sign() {
            -self.magnitude()
        } else {
            self.magnitude()
        }
    }

    /// `self < other` as IEEE-754 defines it: false when either is a NaN.
    pub open spec fn less(self, other: Scalar) -> bool {
        !self.nan() && !other.nan() && self.rank() < other.rank()
    }

    /// `self <= other` as IEEE-754 defines it: false when either is a NaN.
    pub open spec fn at_most(self, other: Scalar) -> bool {
        !self.nan() && !other.nan() && self.rank() <= other.rank()
    }

    /// `self == other` as IEEE-754 defines it: false when either is a NaN,
    /// true of the two zeros.
    pub open spec fn same(self, other: Scalar) -> bool {
        !self.nan() && !other.nan() && self.rank() == other.rank()
    }

    /// The minimum that ignores a NaN: where one operand is a NaN the other is
    /// the result, and of two equal numbers the first is.
    pub open spec fn min_of(self, other: Scalar) -> Scalar {
        if other.nan() {
            self
        } else if self.nan() {
            other
        } else if self.rank() <= other.rank() {
            self
        } else {
            other
        }
    }

    /// The maximum that ignores a NaN: where one operand is a NaN the other is
    /// the result, and of two equal numbers the first is.
    pub open spec fn max_of(self, other: Scalar) -> Scalar {
        if other.nan() {
            self
        } else if self.nan() {
            other
        } else if self.rank() >= other.rank() {
            self
        } else {
            other
        }
    }

    /// The pattern with the sign bit flipped.
    pub open spec fn negated(self) -> Scalar {
        if self.bits >= SIGN_BIT {
            Scalar { bits: (self.bits - SIGN_BIT) as u64 }
        } else {
            Scalar { bits: (self.bits + SIGN_BIT) as u64 }
        }
    }

    /// The pattern with the sign bit cleared.
    pub open spec fn absolute(self) -> Scalar {
        if self.bits >= SIGN_BIT {
            Scalar { bits: (self.bits - SIGN_BIT) as u64 }
        } else {
            self
        }
    }

    /// `lo <= self <= hi`, the test that [`clamp`](crate::rtweekend::clamp)
    /// leaves a value unchanged on.
    pub open spec fn between(self, lo: Scalar, hi: Scalar) -> bool {
        lo.at_most(self) && self.at_most(hi)
    }

    /// The scalar with the given bit pattern.
    pub fn from_bits(bits: u64) -> (s: Scalar)
        ensures
            s.bits == bits,
    {
        Scalar { bits }
    }

    /// The bit pattern.
    pub fn to_bits(self) -> (bits: u64)
        ensures
            bits == self.bits,
    {
        self.bits
    }

    /// Positive zero.
    pub fn zero() -> (s: Scalar)
        ensures
            s.bits == 0,
    {
        Scalar { bits: 0 }
    }

    /// Positive infinity.
    pub fn infinity() -> (s: Scalar)
        ensures
            s.bits == INFINITY_BITS,
    {
        Scalar { bits: INFINITY_BITS }
    }

    /// Whether the pattern encodes a NaN.
    pub fn is_nan(self) -> (r: bool)
        ensures
            r == self.nan(),
    {
        self.abs().bits > INFINITY_BITS
    }

    /// Whether the pattern encodes an infinity.
    pub fn is_infinite(self) -> (r: bool)
        ensures
            r == self.infinite(),
    {
        self.abs().bits == INFINITY_BITS
    }

    /// The rank as a machine integer.
    pub fn key(self) -> (k: i64)
        ensures
            k == self.rank(),
    {
        if self.bits >= SIGN_BIT {
            let m: u64 = self.bits - SIGN_BIT;
            -(m as i64)
        } else {
            self.bits as i64
        }
    }

    /// `self < other`.
    pub fn lt(self, other: Scalar) -> (r: bool)
        ensures
            r == self.less(other),
    {
        !self.is_nan() && !other.is_nan() && self.key() < other.key()
    }

    /// `self <= other`.
    pub fn le(self, other: Scalar) -> (r: bool)
        ensures
            r == self.at_most(other),
    {
        !self.is_nan() && !other.is_nan() && self.key() <= other.key()
    }

    /// `self > other`.
    pub fn gt(self, other: Scalar) -> (r: bool)
        ensures
            r == other.less(self),
    {
        other.lt(self)
    }

    /// `self >= other`.
    pub fn ge(self, other: Scalar) -> (r: bool)
        ensures
            r == other.at_most(self),
    {
        other.le(self)
    }

    /// `self == other` as numbers.
    pub fn equals(self, other: Scalar) -> (r: bool)
        ensures
            r == self.same(other),
    {
        !self.is_nan() && !other.is_nan() && self.key() == other.key()
    }

    /// The smaller of two numbers, a NaN giving way to the other operand.
    pub fn min(self, other: Scalar) -> (m: Scalar)
        ensures
            m == self.min_of(other),
    {
        if other.is_nan() {
            self
        } else if self.is_nan() {
            other
        } else if self.key() <= other.key() {
            self
        } else {
            other
        }
    }

    /// The larger of two numbers, a NaN giving way to the other operand.
    pub fn max(self, other: Scalar) -> (m: Scalar)
        ensures
            m == self.max_of(other),
    {
        if other.is_nan() {
            self
        } else if self.is_nan() {
            other
        } else if self.key() >= other.key() {
            self
        } else {
            other
        }
    }

    /// The number with the opposite sign. Exact: only the sign bit changes.
    pub fn neg(self) -> (n: Scalar)
        ensures
            n == self.negated(),
            n.nan() == self.nan(),
            n.rank() == -self.rank(),
    {
        if self.bits >= SIGN_BIT {
            Scalar { bits: self.bits - SIGN_BIT }
        } else {
            Scalar { bits: self.bits + SIGN_BIT }
        }
    }

    /// The absolute value. Exact: only the sign bit changes.
    pub fn abs(self) -> (a: Scalar)
        ensures
            a == self.absolute(),
            a.bits == self.magnitude(),
            a.nan() == self.nan(),
            !a.sign(),
    {
        if self.bits >= SIGN_BIT {
            Scalar { bits: self.bits - SIGN_BIT }
        } else {
            self
        }
    }
}

/// Among numbers, `at_most` is a total preorder and `less` its strict part.
pub proof fn lemma_order(a: Scalar, b: Scalar, c: Scalar)
    ensures
        !a.nan() ==> a.at_most(a),
        !a.nan() && !b.nan() ==> a.at_most(b) || b.less(a),
        a.less(b) ==> a.at_most(b) && !b.at_most(a),
        a.at_most(b) && b.at_most(c) ==> a.at_most(c),
        a.less(b) && b.at_most(c) ==> a.less(c),
        a.at_most(b) && b.less(c) ==> a.less(c),
        a.at_most(b) && b.at_most(a) <==> a.same(b),
{
}

/// The minimum and maximum are one of their operands, and where neither is a
/// NaN they bound both.
pub proof fn lemma_min_max(a: Scalar, b: Scalar)
    ensures
        a.min_of(b) == a || a.min_of(b) == b,
        a.max_of(b) == a || a.max_of(b) == b,
        !a.nan() && !b.nan() ==> {
            &&& a.min_of(b).at_most(a)
            &&& a.min_of(b).at_most(b)
            &&& a.at_most(a.max_of(b))
            &&& b.at_most(a.max_of(b))
        },
        a.min_of(b).nan() <==> a.nan() && b.nan(),
        a.max_of(b).nan() <==> a.nan() && b.nan(),
{
}

} // verus!
