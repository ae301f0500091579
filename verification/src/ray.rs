//! A ray: where it starts, where it heads, and when it was cast.
use vstd::prelude::*;
use crate::scalar::Scalar;
use crate::vec3::{Point3, Vec3};

verus! {

/// A half-line `origin + t * direction`, cast at time `tm`.
#[derive(Clone, Copy, Debug)]
pub struct Ray {
    pub origin: Point3,
    pub direction: Vec3,
    pub tm: Scalar,
}

impl Ray {
    /// Where the ray starts.
    pub fn origin(self) -> (p: Point3)
        ensures
            p == self.origin,
    {
        self.origin
    }

    /// Where the ray heads.
    pub fn direction(self) -> (v: Vec3)
        ensures
            v == self.direction,
    {
        self.direction
    }

    /// When the ray was cast.
    pub fn time(self) -> (t: Scalar)
        ensures
            t == self.tm,
    {
        self.tm
    }
}

} // verus!
