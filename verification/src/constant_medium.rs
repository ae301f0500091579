//! A volume of constant density, such as smoke: where along its way through
//! the volume a ray scatters, if it does.
use vstd::prelude::*;
use crate::hittable::HitRecord;
use crate::scalar::{Scalar, ONE_BITS};
use crate::vec3::{Point3, Vec3};

verus! {

/// A medium of constant density inside a boundary.
///
/// The boundary is an object of the caller's; the medium holds the material
/// that scatters and the factor that turns the logarithm of a uniform draw
/// into a free-flight distance.
#[derive(Clone, Copy, Debug)]
pub struct ConstantMedium {
    /// The material of the medium, as its index in the scene's materials.
    pub phase_function: usize,
    /// `-1 / density`.
    pub neg_inv_density: Scalar,
}

/// The part of a ray inside the boundary: from `enter` to `exit`.
#[derive(Clone, Copy, Debug)]
pub struct Segment {
    pub enter: Scalar,
    pub exit: Scalar,
}

/// The way of a ray through the boundary, cut down to `[t_min, t_max]` and to
/// what lies in front of the origin. `entry` and `exit` are the parameters at
/// which the ray crosses the boundary; the result is `None` where what is left
/// between them has no length.
pub open spec fn clipped(entry: Scalar, exit: Scalar, t_min: Scalar, t_max: Scalar) -> Option<
    Segment,
> {
    let enter = if entry.less(t_min) {
        t_min
    } else {
        entry
    };
    let leave = if t_max.less(exit) {
        t_max
    } else {
        exit
    };
    if enter.less(leave) {
        Some(
            Segment {
                enter: if enter.less(Scalar { bits: 0 }) {
                    Scalar { bits: 0 }
                } else {
                    enter
                },
                exit: leave,
            },
        )
    } else {
        None
    }
}

/// The way of a ray through the boundary, from what the boundary reports: its
/// first crossing anywhere along the line, and its next crossing behind that
/// one. `None` where either is missing.
pub open spec fn passage(
    entry: Option<HitRecord>,
    exit: Option<HitRecord>,
    t_min: Scalar,
    t_max: Scalar,
) -> Option<Segment> {
    match (entry, exit) {
        (Some(first), Some(second)) => clipped(first.t, second.t, t_min, t_max),
        _ => None,
    }
}

impl ConstantMedium {
    /// The record of a scattering event at parameter `t` and point `p`: the
    /// normal is the x axis and the face the front, both arbitrary, as a
    /// medium has no surface; the material is the medium's.
    pub open spec fn event(self, t: Scalar, p: Point3) -> HitRecord {
        HitRecord {
            p,
            normal: Vec3(Scalar { bits: ONE_BITS }, Scalar { bits: 0 }, Scalar { bits: 0 }),
            mat_ptr: self.phase_function,
            t,
            u: Scalar { bits: 0 },
            v: Scalar { bits: 0 },
            front_face: true,
        }
    }

    /// The medium with the given material and factor `-1 / density`.
    pub fn new(neg_inv_density: Scalar, phase_function: usize) -> (m: ConstantMedium)
        ensures
            m.neg_inv_density == neg_inv_density,
            m.phase_function == phase_function,
    {
        ConstantMedium { phase_function, neg_inv_density }
    }

    /// The part of the ray in which it can scatter.
    ///
    /// `entry` is what the boundary reports over the whole line, `exit` what
    /// it reports behind that crossing. A ray that never enters, or enters and
    /// never leaves, has no such part. Otherwise the two crossings are cut
    /// down to `[t_min, t_max]`; if what is left is empty or inverted, or one
    /// end is a NaN, there is no such part either; and an entry behind the
    /// origin is moved to the origin.
    pub fn segment(
        entry: Option<HitRecord>,
        exit: Option<HitRecord>,
        t_min: Scalar,
        t_max: Scalar,
    ) -> (s: Option<Segment>)
        ensures
            s == passage(entry, exit, t_min, t_max),
            entry is None || exit is None ==> s is None,
            s is Some && !t_min.nan() && !t_max.nan() ==> s->0.exit.at_most(t_max) && t_min.at_most(
                s->0.exit,
            ),
    {
        let first: HitRecord = match entry {
            Some(rec) => rec,
            None => {
                return None;
            },
        };
        let second: HitRecord = match exit {
            Some(rec) => rec,
            None => {
                return None;
            },
        };
        let mut enter: Scalar = first.t;
        let mut leave: Scalar = second.t;
        if enter.lt(t_min) {
            enter = t_min;
        }
        if leave.gt(t_max) {
            leave = t_max;
        }
        if !enter.lt(leave) {
            return None;
        }
        if enter.lt(Scalar::zero()) {
            enter = Scalar::zero();
        }
        Some(Segment { enter, exit: leave })
    }

    /// Whether the ray scatters inside the medium, and where.
    ///
    /// `hit_distance` is the free-flight distance drawn for this ray,
    /// `neg_inv_density` times the logarithm of a uniform draw;
    /// `distance_inside_boundary` is the length of the ray's way through the
    /// medium; `t` and `p` are the parameter and the point that lie
    /// `hit_distance` behind the entry. The ray scatters where the distance
    /// drawn is at most the way through the medium; a NaN on either side
    /// scatters nothing.
    pub fn hit(
        &self,
        hit_distance: Scalar,
        distance_inside_boundary: Scalar,
        t: Scalar,
        p: Point3,
    ) -> (rec: Option<HitRecord>)
        ensures
            rec == if hit_distance.at_most(distance_inside_boundary) {
                Some(self.event(t, p))
            } else {
                None
            },
    {
        if !hit_distance.le(distance_inside_boundary) {
            return None;
        }
        Some(
            HitRecord {
                p,
                normal: Vec3(Scalar::from_bits(ONE_BITS), Scalar::zero(), Scalar::zero()),
                mat_ptr: self.phase_function,
                t,
                u: Scalar::zero(),
                v: Scalar::zero(),
                front_face: true,
            },
        )
    }
}

/// A ray whose crossings with the boundary coincide, or come in the wrong
/// order, has no way through the medium; and neither has one whose way lies
/// outside `[t_min, t_max]`.
pub proof fn lemma_collapsed_misses(entry: Scalar, exit: Scalar, t_min: Scalar, t_max: Scalar)
    requires
        !entry.nan(),
        !exit.nan(),
        !t_min.nan(),
        !t_max.nan(),
        exit.at_most(entry) || exit.at_most(t_min) || t_max.at_most(entry) || t_max.at_most(t_min),
    ensures
        clipped(entry, exit, t_min, t_max) is None,
{
}

/// What is left of a way through the medium lies in `[t_min, t_max]`, between
/// the two crossings or at the origin, and has its ends in order unless it
/// lies behind the origin.
pub proof fn lemma_clipped_inside(entry: Scalar, exit: Scalar, t_min: Scalar, t_max: Scalar)
    requires
        !t_min.nan(),
        !t_max.nan(),
        clipped(entry, exit, t_min, t_max) is Some,
    ensures
        ({
            let s = clipped(entry, exit, t_min, t_max)->0;
            &&& t_min.at_most(s.exit)
            &&& s.exit.at_most(t_max)
            &&& s.exit.at_most(exit)
            &&& entry.at_most(s.enter) || s.enter.bits == 0
            &&& s.enter.less(s.exit) || s.exit.at_most(Scalar { bits: 0 })
        }),
{
}

} // verus!
