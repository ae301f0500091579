//! Spheres, at rest and moving: which root of the intersection equation is
//! the hit.
use vstd::prelude::*;
use crate::hittable::{in_range, within};
use crate::scalar::Scalar;
use crate::vec3::Point3;

verus! {

/// A sphere at rest.
#[derive(Clone, Copy, Debug)]
pub struct Sphere {
    pub center: Point3,
    pub radius: Scalar,
    /// The material, as its index in the scene's materials.
    pub mat_ptr: usize,
}

/// A sphere whose centre moves from `center0` at `time0` to `center1` at
/// `time1`.
#[derive(Clone, Copy, Debug)]
pub struct MovingSphere {
    pub center0: Point3,
    pub center1: Point3,
    pub time0: Scalar,
    pub time1: Scalar,
    pub radius: Scalar,
    /// The material, as its index in the scene's materials.
    pub mat_ptr: usize,
}

/// The hit of a ray on a sphere, from the discriminant of the quadratic
/// equation and its two roots, the smaller one first: none where the
/// discriminant is negative, else the first root that lies in
/// `(t_min, t_max]`.
pub open spec fn root_in_range(
    discriminant: Scalar,
    near: Scalar,
    far: Scalar,
    t_min: Scalar,
    t_max: Scalar,
) -> Option<Scalar> {
    if discriminant.less(Scalar { bits: 0 }) {
        None
    } else if in_range(near, t_min, t_max) {
        Some(near)
    } else if in_range(far, t_min, t_max) {
        Some(far)
    } else {
        None
    }
}

/// The parameter at which a ray hits a sphere, if it does.
///
/// `discriminant` is that of the quadratic equation in the ray's parameter,
/// `near` and `far` its roots `(-b - sqrt(d)) / a` and `(-b + sqrt(d)) / a`.
/// The near root is the hit where it lies in `(t_min, t_max]`, the far root
/// where only it does; a NaN is no root.
pub fn nearest_root(
    discriminant: Scalar,
    near: Scalar,
    far: Scalar,
    t_min: Scalar,
    t_max: Scalar,
) -> (root: Option<Scalar>)
    ensures
        root == root_in_range(discriminant, near, far, t_min, t_max),
        root is Some ==> in_range(root->0, t_min, t_max),
{
    if discriminant.lt(Scalar::zero()) {
        return None;
    }
    if within(near, t_min, t_max) {
        return Some(near);
    }
    if within(far, t_min, t_max) {
        return Some(far);
    }
    None
}

/// The root chosen does not depend on how far the range reaches beyond it:
/// over a shorter range the choice is the same where it still lies in the
/// range, and none otherwise, provided the roots come in order.
pub proof fn lemma_root_steady(
    discriminant: Scalar,
    near: Scalar,
    far: Scalar,
    t_min: Scalar,
    t_max: Scalar,
    shorter: Scalar,
)
    requires
        shorter.at_most(t_max),
        near.at_most(far) || near.nan() || far.nan(),
    ensures
        root_in_range(discriminant, near, far, t_min, shorter) == match root_in_range(
            discriminant,
            near,
            far,
            t_min,
            t_max,
        ) {
            Some(t) => if t.at_most(shorter) {
                Some(t)
            } else {
                None
            },
            None => None,
        },
{
}

} // verus!
