//! What a ray reports of a surface it meets, and the choice of the nearest
//! among several reports.
use vstd::prelude::*;
use crate::aabb::{Crossing, AABB};
use crate::scalar::Scalar;
use crate::vec3::{Point3, Vec3};

verus! {

/// One intersection of a ray with a surface.
#[derive(Clone, Copy, Debug)]
pub struct HitRecord {
    /// Where the ray meets the surface.
    pub p: Point3,
    /// The surface normal, turned against the incoming ray.
    pub normal: Vec3,
    /// The material at the hit point, as its index in the scene's materials.
    pub mat_ptr: usize,
    /// The parameter of the hit along the ray.
    pub t: Scalar,
    /// Surface coordinates for texture lookup.
    pub u: Scalar,
    pub v: Scalar,
    /// Whether the ray arrives from outside the surface.
    pub front_face: bool,
}

/// `t` lies in the half-open range `(t_min, t_max]` in which a hit counts. A
/// NaN lies in no range.
pub open spec fn in_range(t: Scalar, t_min: Scalar, t_max: Scalar) -> bool {
    t_min.less(t) && t.at_most(t_max)
}

/// Whether `t` lies in `(t_min, t_max]`.
pub fn within(t: Scalar, t_min: Scalar, t_max: Scalar) -> (r: bool)
    ensures
        r == in_range(t, t_min, t_max),
{
    t_min.lt(t) && t.le(t_max)
}

impl HitRecord {
    /// The record with its normal set from the outward normal of the surface
    /// and `facing`, the dot product of the ray's direction with that normal.
    pub open spec fn faced(self, facing: Scalar, outward_normal: Vec3) -> HitRecord {
        let front = facing.less(Scalar { bits: 0 });
        HitRecord {
            front_face: front,
            normal: if front { outward_normal } else { outward_normal.negated() },
            ..self
        }
    }

    /// A record at parameter `t` whose other fields are zero, with material 0:
    /// what a query holds before any surface has answered.
    pub fn blank(t: Scalar) -> (rec: HitRecord)
        ensures
            rec.t == t,
            rec.mat_ptr == 0,
            !rec.front_face,
            rec.p == Vec3(Scalar { bits: 0 }, Scalar { bits: 0 }, Scalar { bits: 0 }),
            rec.normal == rec.p,
            rec.u.bits == 0,
            rec.v.bits == 0,
    {
        HitRecord {
            p: Vec3::zero(),
            normal: Vec3::zero(),
            mat_ptr: 0,
            t,
            u: Scalar::zero(),
            v: Scalar::zero(),
            front_face: false,
        }
    }

    /// The record of a hit at parameter `t` and point `p` on a surface with
    /// the given outward normal, surface coordinates and material. `facing` is
    /// the dot product of the ray's direction with the outward normal.
    pub fn new(
        t: Scalar,
        p: Point3,
        facing: Scalar,
        outward_normal: Vec3,
        u: Scalar,
        v: Scalar,
        mat_ptr: usize,
    ) -> (rec: HitRecord)
        ensures
            rec == (HitRecord {
                p,
                normal: outward_normal,
                mat_ptr,
                t,
                u,
                v,
                front_face: false,
            }).faced(facing, outward_normal),
    {
        let mut rec = HitRecord { p, normal: outward_normal, mat_ptr, t, u, v, front_face: false };
        rec.set_face_normal(facing, outward_normal);
        rec
    }

    /// Orients the normal against the ray. `facing` is the dot product of the
    /// ray's direction with `outward_normal`: where it is negative the ray
    /// comes from outside and the normal stands, otherwise the ray comes from
    /// inside (or grazes, or the product is a NaN) and the normal is flipped.
    pub fn set_face_normal(&mut self, facing: Scalar, outward_normal: Vec3)
        ensures
            *final(self) == old(self).faced(facing, outward_normal),
    {
        self.front_face = facing.lt(Scalar::zero());
        self.normal = if self.front_face {
            outward_normal
        } else {
            outward_normal.neg()
        };
    }
}

/// The nearest hit found so far among the parts of a scene, and the range in
/// which a further hit would replace it.
#[derive(Clone, Copy, Debug)]
pub struct Nearest {
    /// Lower end of the range, exclusive. It never changes.
    pub t_min: Scalar,
    /// Upper end of the range, inclusive: `t_max` at first, then the
    /// parameter of the nearest hit.
    pub closest_so_far: Scalar,
    /// The nearest hit, if there is one.
    pub rec: Option<HitRecord>,
}

impl Nearest {
    /// The state before anything was offered.
    pub open spec fn start(t_min: Scalar, t_max: Scalar) -> Nearest {
        Nearest { t_min, closest_so_far: t_max, rec: None }
    }

    /// Whether a report would be taken: it is a hit, and its parameter lies in
    /// `(t_min, closest_so_far]`.
    pub open spec fn takes(self, candidate: Option<HitRecord>) -> bool {
        candidate is Some && in_range(candidate->0.t, self.t_min, self.closest_so_far)
    }

    /// The state after a report was offered.
    pub open spec fn offered(self, candidate: Option<HitRecord>) -> Nearest {
        if self.takes(candidate) {
            Nearest { t_min: self.t_min, closest_so_far: candidate->0.t, rec: candidate }
        } else {
            self
        }
    }

    /// Where there is a hit, `closest_so_far` is its parameter and lies
    /// above `t_min`.
    pub open spec fn wf(self) -> bool {
        self.rec is Some ==> self.rec->0.t == self.closest_so_far && self.t_min.less(
            self.closest_so_far,
        )
    }

    /// Begins a search for the nearest hit in `(t_min, t_max]`.
    pub fn new(t_min: Scalar, t_max: Scalar) -> (n: Nearest)
        ensures
            n == Nearest::start(t_min, t_max),
            n.wf(),
    {
        Nearest { t_min, closest_so_far: t_max, rec: None }
    }

    /// The upper end of the range to test the next part over.
    pub fn limit(&self) -> (t: Scalar)
        ensures
            t == self.closest_so_far,
    {
        self.closest_so_far
    }

    /// Takes the report of one part of the scene. A hit in range replaces the
    /// nearest so far and narrows the range to its parameter; a miss, or a hit
    /// out of range, changes nothing. Returns whether the report was taken.
    pub fn offer(&mut self, candidate: Option<HitRecord>) -> (taken: bool)
        ensures
            taken == old(self).takes(candidate),
            *final(self) == old(self).offered(candidate),
            old(self).wf() ==> final(self).wf(),
    {
        match candidate {
            Some(rec) => {
                if within(rec.t, self.t_min, self.closest_so_far) {
                    self.closest_so_far = rec.t;
                    self.rec = Some(rec);
                    true
                } else {
                    false
                }
            },
            None => false,
        }
    }

    /// The nearest hit, or `None` where every part missed.
    pub fn finish(self) -> (rec: Option<HitRecord>)
        ensures
            rec == self.rec,
    {
        self.rec
    }
}

/// What a query needs to know next.
#[derive(Clone, Copy, Debug)]
pub enum Ask {
    /// The crossings of the ray with the slabs of this box.
    Crossings(AABB),
    /// The nearest hit of the ray on this object in `(t_min, t_max]`.
    Hit { object: usize, t_min: Scalar, t_max: Scalar },
    /// Nothing more: the search has ended with this outcome.
    Finished(Option<HitRecord>),
}

/// What the caller has computed for a query.
#[derive(Clone, Copy, Debug)]
pub enum Answer {
    /// The crossings along x, y and z with the box asked about.
    Crossings(Crossing, Crossing, Crossing),
    /// The report of the object asked about.
    Hit(Option<HitRecord>),
}

/// Whether the answer is to the question.
pub open spec fn fits(ask: Ask, answer: Answer) -> bool {
    match (ask, answer) {
        (Ask::Crossings(_), Answer::Crossings(_, _, _)) => true,
        (Ask::Hit { .. }, Answer::Hit(_)) => true,
        _ => false,
    }
}

/// An object moved by an offset.
#[derive(Clone, Copy, Debug)]
pub struct Translate {
    pub offset: Vec3,
}

impl Translate {
    /// A move by `displacement`.
    pub fn new(displacement: Vec3) -> (t: Translate)
        ensures
            t.offset == displacement,
    {
        Translate { offset: displacement }
    }

    /// The hit on the moved object, from the hit of the ray moved back on
    /// the object itself: the same hit at the point `moved`, which is the hit
    /// point plus the offset, its normal turned against the ray anew.
    /// `facing` is the dot product of the ray's direction with the normal
    /// that the object reported.
    pub fn hit(rec: Option<HitRecord>, moved: Point3, facing: Scalar) -> (out: Option<HitRecord>)
        ensures
            out == match rec {
                Some(h) => Some((HitRecord { p: moved, ..h }).faced(facing, h.normal)),
                None => None,
            },
    {
        match rec {
            Some(h) => {
                let mut out = h;
                out.p = moved;
                out.set_face_normal(facing, h.normal);
                Some(out)
            },
            None => None,
        }
    }

    /// The box of the moved object, from the box of the object itself and
    /// its two corners plus the offset. An object without a box has none
    /// when moved.
    pub fn bounding_box(inner: Option<AABB>, minimum: Point3, maximum: Point3) -> (b: Option<AABB>)
        ensures
            b == match inner {
                Some(_) => Some(AABB { minimum, maximum }),
                None => None,
            },
    {
        match inner {
            Some(_) => Some(AABB { minimum, maximum }),
            None => None,
        }
    }
}

/// An object turned about the y axis.
#[derive(Clone, Copy, Debug)]
pub struct RotateY {
    pub sin_theta: Scalar,
    pub cos_theta: Scalar,
    pub hasbox: bool,
    pub bbox: AABB,
}

impl RotateY {
    /// The corners to turn: those of the object's box, or eight times the
    /// origin for an object without one.
    pub fn corners(inner: Option<AABB>) -> (c: Vec<Point3>)
        ensures
            c@ == match inner {
                Some(b) => b.corner_seq(),
                None => (AABB {
                    minimum: Vec3(Scalar { bits: 0 }, Scalar { bits: 0 }, Scalar { bits: 0 }),
                    maximum: Vec3(Scalar { bits: 0 }, Scalar { bits: 0 }, Scalar { bits: 0 }),
                }).corner_seq(),
            },
    {
        match inner {
            Some(b) => b.corners(),
            None => (AABB { minimum: Vec3::zero(), maximum: Vec3::zero() }).corners(),
        }
    }

    /// The turned object, from the sine and cosine of the angle, whether the
    /// object has a box, and the turned corners of that box. The box of the
    /// turned object spans the extrema of the turned corners, as a turn does
    /// not keep a box aligned with the axes.
    pub fn new(sin_theta: Scalar, cos_theta: Scalar, hasbox: bool, turned: &Vec<Point3>) -> (r:
        RotateY)
        ensures
            r.sin_theta == sin_theta,
            r.cos_theta == cos_theta,
            r.hasbox == hasbox,
            r.bbox.minimum == crate::aabb::lowest(turned@),
            r.bbox.maximum == crate::aabb::highest(turned@),
    {
        RotateY { sin_theta, cos_theta, hasbox, bbox: AABB::around(turned) }
    }

    /// The box of the turned object, if the object has one.
    pub fn bounding_box(&self) -> (b: Option<AABB>)
        ensures
            b == if self.hasbox {
                Some(self.bbox)
            } else {
                None
            },
    {
        if self.hasbox {
            Some(self.bbox)
        } else {
            None
        }
    }

    /// The hit on the turned object, from the hit of the ray turned back on
    /// the object itself: the same hit, with point and normal turned forth,
    /// and the normal turned against the ray. `facing` is the dot product of
    /// the direction of the ray turned back with `normal`.
    pub fn hit(rec: Option<HitRecord>, p: Point3, normal: Vec3, facing: Scalar) -> (out: Option<
        HitRecord,
    >)
        ensures
            out == match rec {
                Some(h) => Some((HitRecord { p, ..h }).faced(facing, normal)),
                None => None,
            },
    {
        match rec {
            Some(h) => {
                let mut out = h;
                out.p = p;
                out.set_face_normal(facing, normal);
                Some(out)
            },
            None => None,
        }
    }
}

} // verus!
