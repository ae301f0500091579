//! A box made of six rectangles.
use vstd::prelude::*;
use crate::aabb::AABB;
use crate::aarect::{XYRect, XZRect, YZRect};
use crate::vec3::Point3;

verus! {

/// One face of a box.
#[derive(Clone, Copy, Debug)]
pub enum Side {
    XY(XYRect),
    XZ(XZRect),
    YZ(YZRect),
}

/// A closed box between two corners, made of its six faces.
#[derive(Debug)]
pub struct ABox {
    pub box_min: Point3,
    pub box_max: Point3,
    pub sides: Vec<Side>,
}

/// The six faces of the box between `p0` and `p1`, all of one material: the
/// two faces of constant z, far one first, then those of constant y, then
/// those of constant x.
pub open spec fn faces(p0: Point3, p1: Point3, mp: usize) -> Seq<Side> {
    seq![
        Side::XY(XYRect { mp, x0: p0.0, x1: p1.0, y0: p0.1, y1: p1.1, k: p1.2 }),
        Side::XY(XYRect { mp, x0: p0.0, x1: p1.0, y0: p0.1, y1: p1.1, k: p0.2 }),
        Side::XZ(XZRect { mp, x0: p0.0, x1: p1.0, z0: p0.2, z1: p1.2, k: p1.1 }),
        Side::XZ(XZRect { mp, x0: p0.0, x1: p1.0, z0: p0.2, z1: p1.2, k: p0.1 }),
        Side::YZ(YZRect { mp, y0: p0.1, y1: p1.1, z0: p0.2, z1: p1.2, k: p1.0 }),
        Side::YZ(YZRect { mp, y0: p0.1, y1: p1.1, z0: p0.2, z1: p1.2, k: p0.0 }),
    ]
}

impl ABox {
    /// The box between the corners `p0` and `p1`, of the material with index
    /// `ptr`.
    pub fn new(p0: &Point3, p1: &Point3, ptr: usize) -> (b: ABox)
        ensures
            b.box_min == *p0,
            b.box_max == *p1,
            b.sides@ == faces(*p0, *p1, ptr),
    {
        let mut sides: Vec<Side> = Vec::new();
        sides.push(Side::XY(XYRect::new(p0.x(), p1.x(), p0.y(), p1.y(), p1.z(), ptr)));
        sides.push(Side::XY(XYRect::new(p0.x(), p1.x(), p0.y(), p1.y(), p0.z(), ptr)));
        sides.push(Side::XZ(XZRect::new(p0.x(), p1.x(), p0.z(), p1.z(), p1.y(), ptr)));
        sides.push(Side::XZ(XZRect::new(p0.x(), p1.x(), p0.z(), p1.z(), p0.y(), ptr)));
        sides.push(Side::YZ(YZRect::new(p0.y(), p1.y(), p0.z(), p1.z(), p1.x(), ptr)));
        sides.push(Side::YZ(YZRect::new(p0.y(), p1.y(), p0.z(), p1.z(), p0.x(), ptr)));
        assert(sides@ =~= faces(*p0, *p1, ptr));
        ABox { box_min: *p0, box_max: *p1, sides }
    }

    /// The bounding box: the box itself.
    pub fn bounding_box(&self) -> (b: AABB)
        ensures
            b == (AABB { minimum: self.box_min, maximum: self.box_max }),
    {
        AABB { minimum: self.box_min, maximum: self.box_max }
    }
}

} // verus!
