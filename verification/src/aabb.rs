//! Axis-aligned bounding boxes: union, containment, and the slab test.
use vstd::prelude::*;
use crate::scalar::{Scalar, MAX_BITS};
use crate::vec3::{Point3, Vec3};

verus! {

/// A box given by its two extreme corners.
#[derive(Clone, Copy, Debug)]
pub struct AABB {
    pub minimum: Point3,
    pub maximum: Point3,
}

/// The two parameters at which a ray meets the planes that bound a box along
/// one axis: `(minimum[a] - origin[a]) / direction[a]` and
/// `(maximum[a] - origin[a]) / direction[a]`, in either order. For a ray that
/// runs parallel to the planes they are infinities, or NaN where the origin
/// lies in a plane.
#[derive(Clone, Copy, Debug)]
pub struct Crossing(pub Scalar, pub Scalar);

impl Crossing {
    /// Where the ray enters the slab: the smaller parameter.
    pub open spec fn entry(self) -> Scalar {
        self.0.min_of(self.1)
    }

    /// Where the ray leaves the slab: the larger parameter.
    pub open spec fn exit(self) -> Scalar {
        self.0.max_of(self.1)
    }

    /// Neither parameter is a NaN.
    pub open spec fn numeric(self) -> bool {
        !self.0.nan() && !self.1.nan()
    }
}

/// A parameter interval `(lo, hi)` cut down to one slab.
pub open spec fn narrowed(c: Crossing, lo: Scalar, hi: Scalar) -> (Scalar, Scalar) {
    (c.entry().max_of(lo), c.exit().min_of(hi))
}

/// The slab test on three crossings, as it runs: narrow the interval axis by
/// axis, and fail as soon as its upper end is at most its lower end.
pub open spec fn slabs_overlap(
    x: Crossing,
    y: Crossing,
    z: Crossing,
    t_min: Scalar,
    t_max: Scalar,
) -> bool {
    let r0 = narrowed(x, t_min, t_max);
    let r1 = narrowed(y, r0.0, r0.1);
    let r2 = narrowed(z, r1.0, r1.1);
    !r0.1.at_most(r0.0) && !r1.1.at_most(r1.0) && !r2.1.at_most(r2.0)
}

/// The smallest box that holds both boxes.
pub open spec fn surrounding(a: AABB, b: AABB) -> AABB {
    AABB { minimum: a.minimum.min_of(b.minimum), maximum: a.maximum.max_of(b.maximum) }
}

/// The componentwise minimum of the points, starting from the largest finite
/// value.
pub open spec fn lowest(points: Seq<Point3>) -> Point3
    decreases points.len(),
{
    if points.len() == 0 {
        let top = Scalar { bits: MAX_BITS };
        Vec3(top, top, top)
    } else {
        lowest(points.drop_last()).min_of(points.last())
    }
}

/// The componentwise maximum of the points, starting from the smallest finite
/// value.
pub open spec fn highest(points: Seq<Point3>) -> Point3
    decreases points.len(),
{
    if points.len() == 0 {
        let top = Scalar { bits: MAX_BITS };
        Vec3(top.negated(), top.negated(), top.negated())
    } else {
        highest(points.drop_last()).max_of(points.last())
    }
}

/// No component of the point is a NaN or an infinity.
pub open spec fn finite_point(p: Point3) -> bool {
    p.0.magnitude() <= MAX_BITS && p.1.magnitude() <= MAX_BITS && p.2.magnitude() <= MAX_BITS
}

impl AABB {
    /// The corners are numbers and the minimum is at most the maximum along
    /// every axis.
    pub open spec fn wf(self) -> bool {
        self.minimum.all_at_most(self.maximum)
    }

    /// The point lies in the box, faces included.
    pub open spec fn holds(self, p: Point3) -> bool {
        self.minimum.all_at_most(p) && p.all_at_most(self.maximum)
    }

    /// The other box lies in this one.
    pub open spec fn encloses(self, other: AABB) -> bool {
        self.minimum.all_at_most(other.minimum) && other.maximum.all_at_most(self.maximum)
    }

    /// The corner picked by three choices between minimum and maximum.
    pub open spec fn corner(self, i: bool, j: bool, k: bool) -> Point3 {
        Vec3(
            if i { self.maximum.0 } else { self.minimum.0 },
            if j { self.maximum.1 } else { self.minimum.1 },
            if k { self.maximum.2 } else { self.minimum.2 },
        )
    }

    /// The eight corners, the x choice changing slowest and the z choice
    /// fastest, each from minimum to maximum.
    pub open spec fn corner_seq(self) -> Seq<Point3> {
        seq![
            self.corner(false, false, false),
            self.corner(false, false, true),
            self.corner(false, true, false),
            self.corner(false, true, true),
            self.corner(true, false, false),
            self.corner(true, false, true),
            self.corner(true, true, false),
            self.corner(true, true, true),
        ]
    }

    /// The corner with the smallest coordinates.
    pub fn min(&self) -> (p: Point3)
        ensures
            p == self.minimum,
    {
        self.minimum
    }

    /// The corner with the largest coordinates.
    pub fn max(&self) -> (p: Point3)
        ensures
            p == self.maximum,
    {
        self.maximum
    }

    /// Whether a ray whose crossings with the three slabs of a box are `x`, `y`
    /// and `z` passes through the box for some parameter in `(t_min, t_max)`.
    ///
    /// The quotients are the caller's; the comparisons are made here, with a
    /// NaN giving way in each minimum and maximum and an infinity ordered like
    /// any other number.
    pub fn hit(x: Crossing, y: Crossing, z: Crossing, t_min: Scalar, t_max: Scalar) -> (r: bool)
        ensures
            r == slabs_overlap(x, y, z, t_min, t_max),
    {
        let lo0: Scalar = x.0.min(x.1).max(t_min);
        let hi0: Scalar = x.0.max(x.1).min(t_max);
        if hi0.le(lo0) {
            return false;
        }
        let lo1: Scalar = y.0.min(y.1).max(lo0);
        let hi1: Scalar = y.0.max(y.1).min(hi0);
        if hi1.le(lo1) {
            return false;
        }
        let lo2: Scalar = z.0.min(z.1).max(lo1);
        let hi2: Scalar = z.0.max(z.1).min(hi1);
        !hi2.le(lo2)
    }

    /// The eight corners of the box, in the order of [`AABB::corner_seq`].
    pub fn corners(&self) -> (c: Vec<Point3>)
        ensures
            c@ == self.corner_seq(),
    {
        let lo: Point3 = self.minimum;
        let hi: Point3 = self.maximum;
        let mut c: Vec<Point3> = Vec::new();
        c.push(Vec3(lo.0, lo.1, lo.2));
        c.push(Vec3(lo.0, lo.1, hi.2));
        c.push(Vec3(lo.0, hi.1, lo.2));
        c.push(Vec3(lo.0, hi.1, hi.2));
        c.push(Vec3(hi.0, lo.1, lo.2));
        c.push(Vec3(hi.0, lo.1, hi.2));
        c.push(Vec3(hi.0, hi.1, lo.2));
        c.push(Vec3(hi.0, hi.1, hi.2));
        assert(c@ =~= self.corner_seq());
        c
    }

    /// The box spanned by the componentwise extrema of the points. Without
    /// points it is the inverted box from the largest to the smallest finite
    /// value.
    pub fn around(points: &Vec<Point3>) -> (b: AABB)
        ensures
            b.minimum == lowest(points@),
            b.maximum == highest(points@),
    {
        let top: Scalar = Scalar::from_bits(MAX_BITS);
        let mut lo: Point3 = Vec3(top, top, top);
        let mut hi: Point3 = Vec3(top.neg(), top.neg(), top.neg());
        let mut i: usize = 0;
        while i < points.len()
            invariant
                i <= points.len(),
                lo == lowest(points@.take(i as int)),
                hi == highest(points@.take(i as int)),
            decreases points.len() - i,
        {
            assert(points@.take(i + 1).drop_last() =~= points@.take(i as int));
            lo = lo.min(points[i]);
            hi = hi.max(points[i]);
            i = i + 1;
        }
        assert(points@.take(i as int) =~= points@);
        AABB { minimum: lo, maximum: hi }
    }
}

/// The smallest box that holds both boxes: the componentwise minimum of the
/// minimums and maximum of the maximums.
pub fn surrounding_box(box0: &AABB, box1: &AABB) -> (b: AABB)
    ensures
        b == surrounding(*box0, *box1),
{
    AABB { minimum: box0.minimum.min(box1.minimum), maximum: box0.maximum.max(box1.maximum) }
}

/// The union bounds both boxes: its minimum is at most both minimums, its
/// maximum at least both maximums, it encloses both, and whatever point one of
/// them holds it holds too.
pub proof fn lemma_surrounding_bounds(a: AABB, b: AABB)
    requires
        a.minimum.numeric(),
        a.maximum.numeric(),
        b.minimum.numeric(),
        b.maximum.numeric(),
    ensures
        surrounding(a, b).minimum.all_at_most(a.minimum),
        surrounding(a, b).minimum.all_at_most(b.minimum),
        a.maximum.all_at_most(surrounding(a, b).maximum),
        b.maximum.all_at_most(surrounding(a, b).maximum),
        surrounding(a, b).encloses(a),
        surrounding(a, b).encloses(b),
        forall|p: Point3| a.holds(p) || b.holds(p) ==> surrounding(a, b).holds(p),
        a.wf() || b.wf() ==> surrounding(a, b).wf(),
{
}

/// The union is the least box that bounds both: every box that encloses the
/// two encloses their union.
pub proof fn lemma_surrounding_least(a: AABB, b: AABB, c: AABB)
    requires
        c.encloses(a),
        c.encloses(b),
    ensures
        c.encloses(surrounding(a, b)),
{
}

/// The union does not depend on the order of the two boxes, up to the sign of
/// a zero, nor on how three boxes are grouped.
pub proof fn lemma_surrounding_symmetric(a: AABB, b: AABB, c: AABB)
    requires
        a.minimum.numeric(),
        a.maximum.numeric(),
        b.minimum.numeric(),
        b.maximum.numeric(),
        c.minimum.numeric(),
        c.maximum.numeric(),
    ensures
        surrounding(a, b).encloses(surrounding(b, a)),
        surrounding(surrounding(a, b), c).encloses(surrounding(a, surrounding(b, c))),
        surrounding(a, surrounding(b, c)).encloses(surrounding(surrounding(a, b), c)),
{
}

/// For crossings and bounds that are numbers, the slab test succeeds exactly
/// when the latest entry, `t_min` included, lies strictly before the earliest
/// exit, `t_max` included.
pub proof fn lemma_slabs_closed_form(
    x: Crossing,
    y: Crossing,
    z: Crossing,
    t_min: Scalar,
    t_max: Scalar,
)
    requires
        x.numeric(),
        y.numeric(),
        z.numeric(),
        !t_min.nan(),
        !t_max.nan(),
    ensures
        slabs_overlap(x, y, z, t_min, t_max) <==> latest(x.entry(), y.entry(), z.entry(), t_min).less(
            soonest(x.exit(), y.exit(), z.exit(), t_max),
        ),
{
}

/// One crossing reaches at least as far as another to both sides.
pub open spec fn reaches(outer: Crossing, inner: Crossing) -> bool {
    outer.entry().at_most(inner.entry()) && inner.exit().at_most(outer.exit())
}

/// The slab test grows with the slabs and with the range: a ray that passes
/// between the crossings `x`, `y` and `z` over `(t_min, t_max)` passes between
/// crossings that reach further, over a range that reaches further.
pub proof fn lemma_slabs_grow(
    x: Crossing,
    y: Crossing,
    z: Crossing,
    t_min: Scalar,
    t_max: Scalar,
    wider_x: Crossing,
    wider_y: Crossing,
    wider_z: Crossing,
    earlier: Scalar,
    later: Scalar,
)
    requires
        x.numeric(),
        y.numeric(),
        z.numeric(),
        wider_x.numeric(),
        wider_y.numeric(),
        wider_z.numeric(),
        reaches(wider_x, x),
        reaches(wider_y, y),
        reaches(wider_z, z),
        earlier.at_most(t_min),
        t_max.at_most(later),
        slabs_overlap(x, y, z, t_min, t_max),
    ensures
        slabs_overlap(wider_x, wider_y, wider_z, earlier, later),
{
    lemma_slabs_closed_form(x, y, z, t_min, t_max);
    lemma_slabs_closed_form(wider_x, wider_y, wider_z, earlier, later);
    let lo = latest(x.entry(), y.entry(), z.entry(), t_min);
    let hi = soonest(x.exit(), y.exit(), z.exit(), t_max);
    let wide_lo = latest(wider_x.entry(), wider_y.entry(), wider_z.entry(), earlier);
    let wide_hi = soonest(wider_x.exit(), wider_y.exit(), wider_z.exit(), later);
    lemma_latest_soonest(x.entry(), y.entry(), z.entry(), t_min);
    lemma_latest_soonest(x.exit(), y.exit(), z.exit(), t_max);
    lemma_latest_soonest(wider_x.entry(), wider_y.entry(), wider_z.entry(), earlier);
    lemma_latest_soonest(wider_x.exit(), wider_y.exit(), wider_z.exit(), later);
    assert(wide_lo.rank() <= lo.rank());
    assert(hi.rank() <= wide_hi.rank());
}

/// The last of four numbers.
pub open spec fn latest(a: Scalar, b: Scalar, c: Scalar, d: Scalar) -> Scalar {
    a.max_of(b).max_of(c).max_of(d)
}

/// The first of four numbers.
pub open spec fn soonest(a: Scalar, b: Scalar, c: Scalar, d: Scalar) -> Scalar {
    a.min_of(b).min_of(c).min_of(d)
}

/// The last of four numbers is one of them and behind none; the first is one
/// of them and before none.
proof fn lemma_latest_soonest(a: Scalar, b: Scalar, c: Scalar, d: Scalar)
    requires
        !a.nan(),
        !b.nan(),
        !c.nan(),
        !d.nan(),
    ensures
        !latest(a, b, c, d).nan(),
        !soonest(a, b, c, d).nan(),
        latest(a, b, c, d).rank() >= a.rank(),
        latest(a, b, c, d).rank() >= b.rank(),
        latest(a, b, c, d).rank() >= c.rank(),
        latest(a, b, c, d).rank() >= d.rank(),
        latest(a, b, c, d).rank() == a.rank() || latest(a, b, c, d).rank() == b.rank() || latest(
            a,
            b,
            c,
            d,
        ).rank() == c.rank() || latest(a, b, c, d).rank() == d.rank(),
        soonest(a, b, c, d).rank() <= a.rank(),
        soonest(a, b, c, d).rank() <= b.rank(),
        soonest(a, b, c, d).rank() <= c.rank(),
        soonest(a, b, c, d).rank() <= d.rank(),
        soonest(a, b, c, d).rank() == a.rank() || soonest(a, b, c, d).rank() == b.rank()
            || soonest(a, b, c, d).rank() == c.rank() || soonest(a, b, c, d).rank() == d.rank(),
{
    let ab = a.max_of(b);
    let abc = ab.max_of(c);
    assert(!ab.nan() && ab.rank() >= a.rank() && ab.rank() >= b.rank());
    assert(!abc.nan() && abc.rank() >= ab.rank() && abc.rank() >= c.rank());
    let nab = a.min_of(b);
    let nabc = nab.min_of(c);
    assert(!nab.nan() && nab.rank() <= a.rank() && nab.rank() <= b.rank());
    assert(!nabc.nan() && nabc.rank() <= nab.rank() && nabc.rank() <= c.rank());
}

/// A ray that is inside every slab at `t_min` and leaves none of them at once
/// is reported as hitting, whatever its direction: this is what holds of a ray
/// whose origin lies strictly inside the box, tested from `t_min = 0`.
pub proof fn lemma_inside_hits(x: Crossing, y: Crossing, z: Crossing, t_min: Scalar, t_max: Scalar)
    requires
        x.numeric(),
        y.numeric(),
        z.numeric(),
        t_min.less(t_max),
        x.entry().at_most(t_min) && t_min.less(x.exit()),
        y.entry().at_most(t_min) && t_min.less(y.exit()),
        z.entry().at_most(t_min) && t_min.less(z.exit()),
    ensures
        slabs_overlap(x, y, z, t_min, t_max),
{
}

/// A ray that has left one slab by `t_min`, or enters one only at `t_max` or
/// later, is reported as missing: this is what holds of a ray that passes
/// entirely on one side of the box along an axis.
pub proof fn lemma_outside_misses(
    x: Crossing,
    y: Crossing,
    z: Crossing,
    t_min: Scalar,
    t_max: Scalar,
)
    requires
        x.numeric(),
        y.numeric(),
        z.numeric(),
        !t_min.nan(),
        !t_max.nan(),
        x.exit().at_most(t_min) || y.exit().at_most(t_min) || z.exit().at_most(t_min)
            || t_max.at_most(x.entry()) || t_max.at_most(y.entry()) || t_max.at_most(z.entry()),
    ensures
        !slabs_overlap(x, y, z, t_min, t_max),
{
}

/// The box around finite points holds each of them, and its corners are
/// finite.
pub proof fn lemma_around_holds(points: Seq<Point3>, i: int)
    requires
        0 <= i < points.len(),
        forall|j: int| 0 <= j < points.len() ==> finite_point(#[trigger] points[j]),
    ensures
        lowest(points).all_at_most(points[i]),
        points[i].all_at_most(highest(points)),
        finite_point(lowest(points)),
        finite_point(highest(points)),
    decreases points.len(),
{
    let rest = points.drop_last();
    lemma_extrema_finite(rest);
    if i < points.len() - 1 {
        lemma_around_holds(rest, i);
    }
}

/// The extrema of finite points are finite.
pub proof fn lemma_extrema_finite(points: Seq<Point3>)
    requires
        forall|j: int| 0 <= j < points.len() ==> finite_point(#[trigger] points[j]),
    ensures
        finite_point(lowest(points)),
        finite_point(highest(points)),
    decreases points.len(),
{
    if points.len() > 0 {
        lemma_extrema_finite(points.drop_last());
    }
}

} // verus!
