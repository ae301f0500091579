//! Axis-aligned rectangles: whether the point at which a ray meets the plane
//! of a rectangle lies on it, and the box around a rectangle.
use vstd::prelude::*;
use crate::aabb::AABB;
use crate::hittable::{in_range, within, HitRecord};
use crate::ray::Ray;
use crate::scalar::{Scalar, ONE_BITS};
use crate::vec3::{Point3, Vec3};

verus! {

/// Where a ray meets the plane of a rectangle.
#[derive(Clone, Copy, Debug)]
pub struct Landing {
    /// The parameter at which the ray meets the plane.
    pub t: Scalar,
    /// The two coordinates of the meeting point in the plane, in the order of
    /// the rectangle's name.
    pub a: Scalar,
    pub b: Scalar,
    /// The same two, as fractions of the rectangle's extent.
    pub u: Scalar,
    pub v: Scalar,
    /// The meeting point.
    pub p: Point3,
}

/// `lo <= x <= hi`.
pub fn inside(x: Scalar, lo: Scalar, hi: Scalar) -> (r: bool)
    ensures
        r == x.between(lo, hi),
{
    lo.le(x) && x.le(hi)
}

/// A rectangle in a plane of constant z, from `x0` to `x1` and from `y0`
/// to `y1`.
#[derive(Clone, Copy, Debug)]
pub struct XYRect {
    /// The material, as its index in the scene's materials.
    pub mp: usize,
    pub x0: Scalar,
    pub x1: Scalar,
    pub y0: Scalar,
    pub y1: Scalar,
    pub k: Scalar,
}

impl XYRect {
    /// The ray meets the rectangle: the parameter lies in `(t_min, t_max]` and
    /// the meeting point within the rectangle's bounds, edges included.
    pub open spec fn meets(self, at: Landing, t_min: Scalar, t_max: Scalar) -> bool {
        &&& in_range(at.t, t_min, t_max)
        &&& at.a.between(self.x0, self.x1)
        &&& at.b.between(self.y0, self.y1)
    }

    /// The unit normal of the rectangle, along the positive z axis.
    pub open spec fn outward() -> Vec3 {
        Vec3(Scalar { bits: 0 }, Scalar { bits: 0 }, Scalar { bits: ONE_BITS })
    }

    /// The record of a hit at the landing, for a ray with the given direction.
    /// The normal is turned against the ray by the sign of the direction's
    /// z component, which is its dot product with the unit normal.
    pub open spec fn record(self, direction: Vec3, at: Landing) -> HitRecord {
        (HitRecord {
            p: at.p,
            normal: Self::outward(),
            mat_ptr: self.mp,
            t: at.t,
            u: at.u,
            v: at.v,
            front_face: false,
        }).faced(direction.2, Self::outward())
    }

    /// The box around the rectangle, `below` and `above` being the planes that
    /// bound it along z.
    pub open spec fn bounds(self, below: Scalar, above: Scalar) -> AABB {
        AABB { minimum: Vec3(self.x0, self.y0, below), maximum: Vec3(self.x1, self.y1, above) }
    }

    /// The rectangle at `z = k` between the given bounds, of the material with
    /// index `mp`.
    pub fn new(x0: Scalar, x1: Scalar, y0: Scalar, y1: Scalar, k: Scalar, mp: usize) -> (r: XYRect)
        ensures
            r == (XYRect { mp, x0, x1, y0, y1, k }),
    {
        XYRect { mp, x0, x1, y0, y1, k }
    }

    /// The hit of a ray on the rectangle, if there is one.
    ///
    /// `at` is where the ray meets the plane `z = k`: the parameter
    /// `(k - origin.z) / direction.z`, the point there, and its coordinates.
    /// There is a hit where the parameter lies in `(t_min, t_max]` and the
    /// point within the rectangle. A NaN in the parameter or in a coordinate
    /// is a miss.
    pub fn hit(&self, r: &Ray, at: &Landing, t_min: Scalar, t_max: Scalar) -> (rec: Option<
        HitRecord,
    >)
        ensures
            rec == if self.meets(*at, t_min, t_max) {
                Some(self.record(r.direction, *at))
            } else {
                None
            },
    {
        if !within(at.t, t_min, t_max) {
            return None;
        }
        if !inside(at.a, self.x0, self.x1) || !inside(at.b, self.y0, self.y1) {
            return None;
        }
        let one: Scalar = Scalar::from_bits(ONE_BITS);
        let zero: Scalar = Scalar::zero();
        let outward_normal: Vec3 = Vec3(zero, zero, one);
        Some(HitRecord::new(at.t, at.p, r.direction.2, outward_normal, at.u, at.v, self.mp))
    }

    /// The bounding box of the rectangle. A box must have a width along every
    /// axis, so along z it reaches from `below` to `above`, two planes that
    /// the caller puts a small distance to either side of `k`. Where they do
    /// not lie strictly to either side, the rectangle has no box.
    pub fn bounding_box(&self, below: Scalar, above: Scalar) -> (b: Option<AABB>)
        ensures
            b == if below.less(self.k) && self.k.less(above) {
                Some(self.bounds(below, above))
            } else {
                None
            },
            b is Some ==> b->0.minimum.2.less(b->0.maximum.2),
    {
        if below.lt(self.k) && self.k.lt(above) {
            Some(
                AABB {
                    minimum: Vec3(self.x0, self.y0, below),
                    maximum: Vec3(self.x1, self.y1, above),
                },
            )
        } else {
            None
        }
    }
}

/// A rectangle in a plane of constant y, from `x0` to `x1` and from `z0`
/// to `z1`.
#[derive(Clone, Copy, Debug)]
pub struct XZRect {
    /// The material, as its index in the scene's materials.
    pub mp: usize,
    pub x0: Scalar,
    pub x1: Scalar,
    pub z0: Scalar,
    pub z1: Scalar,
    pub k: Scalar,
}

impl XZRect {
    /// The ray meets the rectangle: the parameter lies in `(t_min, t_max]` and
    /// the meeting point within the rectangle's bounds, edges included.
    pub open spec fn meets(self, at: Landing, t_min: Scalar, t_max: Scalar) -> bool {
        &&& in_range(at.t, t_min, t_max)
        &&& at.a.between(self.x0, self.x1)
        &&& at.b.between(self.z0, self.z1)
    }

    /// The unit normal of the rectangle, along the positive y axis.
    pub open spec fn outward() -> Vec3 {
        Vec3(Scalar { bits: 0 }, Scalar { bits: ONE_BITS }, Scalar { bits: 0 })
    }

    /// The record of a hit at the landing, for a ray with the given direction.
    /// The normal is turned against the ray by the sign of the direction's
    /// y component, which is its dot product with the unit normal.
    pub open spec fn record(self, direction: Vec3, at: Landing) -> HitRecord {
        (HitRecord {
            p: at.p,
            normal: Self::outward(),
            mat_ptr: self.mp,
            t: at.t,
            u: at.u,
            v: at.v,
            front_face: false,
        }).faced(direction.1, Self::outward())
    }

    /// The box around the rectangle, `below` and `above` being the planes that
    /// bound it along y.
    pub open spec fn bounds(self, below: Scalar, above: Scalar) -> AABB {
        AABB { minimum: Vec3(self.x0, below, self.z0), maximum: Vec3(self.x1, above, self.z1) }
    }

    /// The rectangle at `y = k` between the given bounds, of the material with
    /// index `mp`.
    pub fn new(x0: Scalar, x1: Scalar, z0: Scalar, z1: Scalar, k: Scalar, mp: usize) -> (r: XZRect)
        ensures
            r == (XZRect { mp, x0, x1, z0, z1, k }),
    {
        XZRect { mp, x0, x1, z0, z1, k }
    }

    /// The hit of a ray on the rectangle, if there is one.
    ///
    /// `at` is where the ray meets the plane `y = k`: the parameter
    /// `(k - origin.y) / direction.y`, the point there, and its coordinates.
    /// There is a hit where the parameter lies in `(t_min, t_max]` and the
    /// point within the rectangle. A NaN in the parameter or in a coordinate
    /// is a miss.
    pub fn hit(&self, r: &Ray, at: &Landing, t_min: Scalar, t_max: Scalar) -> (rec: Option<
        HitRecord,
    >)
        ensures
            rec == if self.meets(*at, t_min, t_max) {
                Some(self.record(r.direction, *at))
            } else {
                None
            },
    {
        if !within(at.t, t_min, t_max) {
            return None;
        }
        if !inside(at.a, self.x0, self.x1) || !inside(at.b, self.z0, self.z1) {
            return None;
        }
        let one: Scalar = Scalar::from_bits(ONE_BITS);
        let zero: Scalar = Scalar::zero();
        let outward_normal: Vec3 = Vec3(zero, one, zero);
        Some(HitRecord::new(at.t, at.p, r.direction.1, outward_normal, at.u, at.v, self.mp))
    }

    /// The bounding box of the rectangle. A box must have a width along every
    /// axis, so along y it reaches from `below` to `above`, two planes that
    /// the caller puts a small distance to either side of `k`. Where they do
    /// not lie strictly to either side, the rectangle has no box.
    pub fn bounding_box(&self, below: Scalar, above: Scalar) -> (b: Option<AABB>)
        ensures
            b == if below.less(self.k) && self.k.less(above) {
                Some(self.bounds(below, above))
            } else {
                None
            },
            b is Some ==> b->0.minimum.1.less(b->0.maximum.1),
    {
        if below.lt(self.k) && self.k.lt(above) {
            Some(
                AABB {
                    minimum: Vec3(self.x0, below, self.z0),
                    maximum: Vec3(self.x1, above, self.z1),
                },
            )
        } else {
            None
        }
    }
}

/// A rectangle in a plane of constant x, from `y0` to `y1` and from `z0`
/// to `z1`.
#[derive(Clone, Copy, Debug)]
pub struct YZRect {
    /// The material, as its index in the scene's materials.
    pub mp: usize,
    pub y0: Scalar,
    pub y1: Scalar,
    pub z0: Scalar,
    pub z1: Scalar,
    pub k: Scalar,
}

impl YZRect {
    /// The ray meets the rectangle: the parameter lies in `(t_min, t_max]` and
    /// the meeting point within the rectangle's bounds, edges included.
    pub open spec fn meets(self, at: Landing, t_min: Scalar, t_max: Scalar) -> bool {
        &&& in_range(at.t, t_min, t_max)
        &&& at.a.between(self.y0, self.y1)
        &&& at.b.between(self.z0, self.z1)
    }

    /// The unit normal of the rectangle, along the positive x axis.
    pub open spec fn outward() -> Vec3 {
        Vec3(Scalar { bits: ONE_BITS }, Scalar { bits: 0 }, Scalar { bits: 0 })
    }

    /// The record of a hit at the landing, for a ray with the given direction.
    /// The normal is turned against the ray by the sign of the direction's
    /// x component, which is its dot product with the unit normal.
    pub open spec fn record(self, direction: Vec3, at: Landing) -> HitRecord {
        (HitRecord {
            p: at.p,
            normal: Self::outward(),
            mat_ptr: self.mp,
            t: at.t,
            u: at.u,
            v: at.v,
            front_face: false,
        }).faced(direction.0, Self::outward())
    }

    /// The box around the rectangle, `below` and `above` being the planes that
    /// bound it along x.
    pub open spec fn bounds(self, below: Scalar, above: Scalar) -> AABB {
        AABB { minimum: Vec3(below, self.y0, self.z0), maximum: Vec3(above, self.y1, self.z1) }
    }

    /// The rectangle at `x = k` between the given bounds, of the material with
    /// index `mp`.
    pub fn new(y0: Scalar, y1: Scalar, z0: Scalar, z1: Scalar, k: Scalar, mp: usize) -> (r: YZRect)
        ensures
            r == (YZRect { mp, y0, y1, z0, z1, k }),
    {
        YZRect { mp, y0, y1, z0, z1, k }
    }

    /// The hit of a ray on the rectangle, if there is one.
    ///
    /// `at` is where the ray meets the plane `x = k`: the parameter
    /// `(k - origin.x) / direction.x`, the point there, and its coordinates.
    /// There is a hit where the parameter lies in `(t_min, t_max]` and the
    /// point within the rectangle. A NaN in the parameter or in a coordinate
    /// is a miss.
    pub fn hit(&self, r: &Ray, at: &Landing, t_min: Scalar, t_max: Scalar) -> (rec: Option<
        HitRecord,
    >)
        ensures
            rec == if self.meets(*at, t_min, t_max) {
                Some(self.record(r.direction, *at))
            } else {
                None
            },
    {
        if !within(at.t, t_min, t_max) {
            return None;
        }
        if !inside(at.a, self.y0, self.y1) || !inside(at.b, self.z0, self.z1) {
            return None;
        }
        let one: Scalar = Scalar::from_bits(ONE_BITS);
        let zero: Scalar = Scalar::zero();
        let outward_normal: Vec3 = Vec3(one, zero, zero);
        Some(HitRecord::new(at.t, at.p, r.direction.0, outward_normal, at.u, at.v, self.mp))
    }

    /// The bounding box of the rectangle. A box must have a width along every
    /// axis, so along x it reaches from `below` to `above`, two planes that
    /// the caller puts a small distance to either side of `k`. Where they do
    /// not lie strictly to either side, the rectangle has no box.
    pub fn bounding_box(&self, below: Scalar, above: Scalar) -> (b: Option<AABB>)
        ensures
            b == if below.less(self.k) && self.k.less(above) {
                Some(self.bounds(below, above))
            } else {
                None
            },
            b is Some ==> b->0.minimum.0.less(b->0.maximum.0),
    {
        if below.lt(self.k) && self.k.lt(above) {
            Some(
                AABB {
                    minimum: Vec3(below, self.y0, self.z0),
                    maximum: Vec3(above, self.y1, self.z1),
                },
            )
        } else {
            None
        }
    }
}

/// A landing is taken over a shorter range exactly where it still lies in it:
/// a rectangle answers as [`steady`](crate::hittable_list::steady) asks of a
/// surface.
pub proof fn lemma_landing_steady(t: Scalar, t_min: Scalar, t_max: Scalar, shorter: Scalar)
    requires
        shorter.at_most(t_max),
    ensures
        in_range(t, t_min, shorter) <==> in_range(t, t_min, t_max) && t.at_most(shorter),
{
}

} // verus!
