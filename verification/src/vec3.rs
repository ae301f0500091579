//! Three scalars: a vector, a point or a colour.
//!
//! What the crate needs of a vector is its components, its order along an
//! axis, and its sign. Sums, products and lengths belong to the caller.
use vstd::prelude::*;
use crate::scalar::{Scalar, ONE_BITS};

/// A position.
pub use self::Vec3 as Point3;
/// Red, green and blue.
pub use self::Vec3 as Color;

verus! {

/// The bit pattern of `1e-8`, below which a component counts as zero.
pub const NEAR_ZERO_BITS: u64 = 0x3e45_798e_e230_8c3a;

/// Three scalars, in the order x, y, z.
#[derive(Clone, Copy, Debug)]
pub struct Vec3(pub Scalar, pub Scalar, pub Scalar);


impl Vec3 {
    /// The component along an axis: x for 0, y for 1, z for every other index.
    pub open spec fn coord(self, axis: int) -> Scalar {
        if axis == 0 {
            self.0
        } else if axis == 1 {
            self.1
        } else {
            self.2
        }
    }

    /// No component is a NaN.
    pub open spec fn numeric(self) -> bool {
        !self.0.nan() && !self.1.nan() && !self.2.nan()
    }

    /// Every component of `self` is at most that of `other`.
    pub open spec fn all_at_most(self, other: Vec3) -> bool {
        self.0.at_most(other.0) && self.1.at_most(other.1) && self.2.at_most(other.2)
    }

    /// The componentwise minimum.
    pub open spec fn min_of(self, other: Vec3) -> Vec3 {
        Vec3(self.0.min_of(other.0), self.1.min_of(other.1), self.2.min_of(other.2))
    }

    /// The componentwise maximum.
    pub open spec fn max_of(self, other: Vec3) -> Vec3 {
        Vec3(self.0.max_of(other.0), self.1.max_of(other.1), self.2.max_of(other.2))
    }

    /// The vector with every sign flipped.
    pub open spec fn negated(self) -> Vec3 {
        Vec3(self.0.negated(), self.1.negated(), self.2.negated())
    }

    /// Every component is below `1e-8` in absolute value.
    pub open spec fn tiny(self) -> bool {
        let s = Scalar { bits: NEAR_ZERO_BITS };
        self.0.absolute().less(s) && self.1.absolute().less(s) && self.2.absolute().less(s)
    }

    /// The vector with the given components.
    pub fn new(x: Scalar, y: Scalar, z: Scalar) -> (v: Vec3)
        ensures
            v == Vec3(x, y, z),
    {
        Vec3(x, y, z)
    }

    /// The vector whose components are all positive zero.
    pub fn zero() -> (v: Vec3)
        ensures
            v.0.bits == 0,
            v.1.bits == 0,
            v.2.bits == 0,
    {
        Vec3(Scalar::zero(), Scalar::zero(), Scalar::zero())
    }

    /// The component along x.
    pub fn x(&self) -> (s: Scalar)
        ensures
            s == self.0,
    {
        self.0
    }

    /// The component along y.
    pub fn y(&self) -> (s: Scalar)
        ensures
            s == self.1,
    {
        self.1
    }

    /// The component along z.
    pub fn z(&self) -> (s: Scalar)
        ensures
            s == self.2,
    {
        self.2
    }

    /// The component along an axis: x for 0, y for 1, z for every other index.
    pub fn axis(&self, i: u32) -> (s: Scalar)
        ensures
            s == self.coord(i as int),
    {
        if i == 0 {
            self.0
        } else if i == 1 {
            self.1
        } else {
            self.2
        }
    }

    /// The vector with every sign flipped.
    pub fn neg(self) -> (v: Vec3)
        ensures
            v == self.negated(),
    {
        Vec3(self.0.neg(), self.1.neg(), self.2.neg())
    }

    /// The componentwise minimum, a NaN giving way to the other operand.
    pub fn min(self, other: Vec3) -> (v: Vec3)
        ensures
            v == self.min_of(other),
    {
        Vec3(self.0.min(other.0), self.1.min(other.1), self.2.min(other.2))
    }

    /// The componentwise maximum, a NaN giving way to the other operand.
    pub fn max(self, other: Vec3) -> (v: Vec3)
        ensures
            v == self.max_of(other),
    {
        Vec3(self.0.max(other.0), self.1.max(other.1), self.2.max(other.2))
    }

    /// Whether the vector is close to zero in all dimensions.
    pub fn near_zero(&self) -> (r: bool)
        ensures
            r == self.tiny(),
    {
        let s: Scalar = Scalar::from_bits(NEAR_ZERO_BITS);
        self.0.abs().lt(s) && self.1.abs().lt(s) && self.2.abs().lt(s)
    }
}

/// A candidate for a random point in the unit ball, given the square of its
/// length: the candidate itself where it lies strictly inside, `None`
/// where another is to be drawn.
pub fn random_in_unit_sphere(candidate: Vec3, length_square: Scalar) -> (p: Option<Vec3>)
    ensures
        p == if length_square.less(Scalar { bits: ONE_BITS }) {
            Some(candidate)
        } else {
            None
        },
{
    if length_square.lt(Scalar::from_bits(ONE_BITS)) {
        Some(candidate)
    } else {
        None
    }
}

/// A candidate for a random point in the unit disk of the plane `z = 0`, given
/// the square of its length: the candidate itself where it lies strictly
/// inside, `None` where another is to be drawn.
pub fn random_in_unit_disk(candidate: Vec3, length_square: Scalar) -> (p: Option<Vec3>)
    ensures
        p == if length_square.less(Scalar { bits: ONE_BITS }) {
            Some(candidate)
        } else {
            None
        },
{
    random_in_unit_sphere(candidate, length_square)
}

/// A random point of the unit ball, turned into the hemisphere around a
/// normal. `facing` is the dot product of the point with the normal: where it
/// is positive the point stands, otherwise its opposite is taken.
pub fn random_in_hemisphere(in_unit_sphere: Vec3, facing: Scalar) -> (v: Vec3)
    ensures
        v == if (Scalar { bits: 0 }).less(facing) {
            in_unit_sphere
        } else {
            in_unit_sphere.negated()
        },
{
    if facing.gt(Scalar::zero()) {
        in_unit_sphere
    } else {
        in_unit_sphere.neg()
    }
}

} // verus!
