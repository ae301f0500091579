//! An orthonormal basis.
use vstd::prelude::*;
use crate::scalar::{Scalar, ONE_BITS};
use crate::vec3::Vec3;

verus! {

/// The bit pattern of `0.9`: a unit vector whose x component is larger in
/// absolute value counts as nearly parallel to the x axis.
pub const NEARLY_PARALLEL_BITS: u64 = 0x3fec_cccc_cccc_cccd;

/// Three vectors `u`, `v` and `w`.
#[derive(Clone, Copy, Debug)]
pub struct Onb(pub Vec3, pub Vec3, pub Vec3);

impl Onb {
    /// The first vector.
    pub fn u(&self) -> (a: Vec3)
        ensures
            a == self.0,
    {
        self.0
    }

    /// The second vector.
    pub fn v(&self) -> (a: Vec3)
        ensures
            a == self.1,
    {
        self.1
    }

    /// The third vector.
    pub fn w(&self) -> (a: Vec3)
        ensures
            a == self.2,
    {
        self.2
    }

    /// The vector with the given index: `u` for 0, `v` for 1, `w` for every
    /// other index.
    pub fn axis(&self, i: u32) -> (a: Vec3)
        ensures
            a == if i == 0 {
                self.0
            } else if i == 1 {
                self.1
            } else {
                self.2
            },
    {
        if i == 0 {
            self.0
        } else if i == 1 {
            self.1
        } else {
            self.2
        }
    }

    /// The axis to build a basis around `unit_w` with: one that is not
    /// nearly parallel to it. That is the y axis where the x component of
    /// `unit_w` is above 0.9 in absolute value, and the x axis otherwise.
    pub fn helper(unit_w: Vec3) -> (a: Vec3)
        ensures
            a == if (Scalar { bits: NEARLY_PARALLEL_BITS }).less(unit_w.0.absolute()) {
                Vec3(Scalar { bits: 0 }, Scalar { bits: ONE_BITS }, Scalar { bits: 0 })
            } else {
                Vec3(Scalar { bits: ONE_BITS }, Scalar { bits: 0 }, Scalar { bits: 0 })
            },
    {
        let one: Scalar = Scalar::from_bits(ONE_BITS);
        let zero: Scalar = Scalar::zero();
        if unit_w.0.abs().gt(Scalar::from_bits(NEARLY_PARALLEL_BITS)) {
            Vec3(zero, one, zero)
        } else {
            Vec3(one, zero, zero)
        }
    }

    /// Sets the basis around the unit vector `unit_w`, from `v`, the
    /// normalised cross product of `unit_w` with its helper axis, and `u`, the
    /// cross product of `unit_w` with `v`.
    pub fn build_from_w(&mut self, unit_w: Vec3, v: Vec3, u: Vec3)
        ensures
            *final(self) == Onb(u, v, unit_w),
    {
        self.0 = u;
        self.1 = v;
        self.2 = unit_w;
    }
}

} // verus!
