use ray_tracing_rust::aarect::{inside, Landing, XYRect, XZRect, YZRect};
use ray_tracing_rust::abox::{ABox, Side};
use ray_tracing_rust::constant_medium::ConstantMedium;
use ray_tracing_rust::hittable::{within, HitRecord, Nearest};
use ray_tracing_rust::ray::Ray;
use ray_tracing_rust::scalar::Scalar;
use ray_tracing_rust::sphere::{nearest_root, MovingSphere, Sphere};
use ray_tracing_rust::vec3::{Point3, Vec3};

fn s(x: f64) -> Scalar {
    Scalar::from_bits(x.to_bits())
}

fn f(x: Scalar) -> f64 {
    f64::from_bits(x.to_bits())
}

fn point(x: f64, y: f64, z: f64) -> Point3 {
    Vec3::new(s(x), s(y), s(z))
}

fn coords(p: Point3) -> [f64; 3] {
    [f(p.x()), f(p.y()), f(p.z())]
}

fn at(t: f64) -> Option<HitRecord> {
    Some(HitRecord::blank(s(t)))
}

#[test]
fn within_is_open_below_and_closed_above() {
    assert!(within(s(1.0), s(0.0), s(2.0)));
    assert!(within(s(2.0), s(0.0), s(2.0)));
    assert!(!within(s(0.0), s(0.0), s(2.0)));
    assert!(!within(s(2.5), s(0.0), s(2.0)));
    assert!(!within(s(-1.0), s(0.0), s(2.0)));
    assert!(!within(s(f64::NAN), s(0.0), s(2.0)));
    assert!(!within(s(1.0), s(f64::NAN), s(2.0)));
    assert!(!within(s(1.0), s(0.0), s(f64::NAN)));
    assert!(within(s(1e300), s(0.001), s(f64::INFINITY)));
    assert!(within(s(f64::INFINITY), s(0.001), s(f64::INFINITY)));
}

#[test]
fn set_face_normal_turns_the_normal_against_the_ray() {
    let outward = point(0.0, 1.0, 0.0);
    let mut rec = HitRecord::blank(s(1.0));
    rec.set_face_normal(s(-0.5), outward);
    assert!(rec.front_face);
    assert_eq!(coords(rec.normal), [0.0, 1.0, 0.0]);
    rec.set_face_normal(s(0.5), outward);
    assert!(!rec.front_face);
    assert_eq!(coords(rec.normal), [-0.0, -1.0, -0.0]);
    assert_eq!(rec.normal.y().to_bits(), (-1.0f64).to_bits());
    rec.set_face_normal(s(0.0), outward);
    assert!(!rec.front_face);
    rec.set_face_normal(s(f64::NAN), outward);
    assert!(!rec.front_face);
    assert_eq!(f(rec.t), 1.0);
}

#[test]
fn hit_record_new_fills_every_field() {
    let rec = HitRecord::new(
        s(2.5),
        point(1.0, 2.0, 3.0),
        s(-1.0),
        point(0.0, 0.0, 1.0),
        s(0.25),
        s(0.75),
        7,
    );
    assert_eq!(f(rec.t), 2.5);
    assert_eq!(coords(rec.p), [1.0, 2.0, 3.0]);
    assert_eq!(coords(rec.normal), [0.0, 0.0, 1.0]);
    assert_eq!(f(rec.u), 0.25);
    assert_eq!(f(rec.v), 0.75);
    assert_eq!(rec.mat_ptr, 7);
    assert!(rec.front_face);
}

#[test]
fn nearest_keeps_the_closest_report() {
    let mut near = Nearest::new(s(0.001), s(f64::INFINITY));
    assert_eq!(f(near.limit()), f64::INFINITY);
    assert!(!near.offer(None));
    assert!(near.offer(at(5.0)));
    assert_eq!(f(near.limit()), 5.0);
    assert!(!near.offer(at(6.0)));
    assert!(near.offer(at(3.0)));
    assert!(!near.offer(at(0.001)));
    assert!(!near.offer(at(-1.0)));
    assert!(!near.offer(at(f64::NAN)));
    assert_eq!(f(near.limit()), 3.0);
    assert_eq!(f(near.finish().unwrap().t), 3.0);
}

#[test]
fn nearest_takes_a_later_report_at_the_same_distance() {
    let mut near = Nearest::new(s(0.0), s(10.0));
    let mut first = HitRecord::blank(s(2.0));
    first.mat_ptr = 1;
    let mut second = HitRecord::blank(s(2.0));
    second.mat_ptr = 2;
    assert!(near.offer(Some(first)));
    assert!(near.offer(Some(second)));
    assert_eq!(near.finish().unwrap().mat_ptr, 2);
}

#[test]
fn nearest_without_reports_is_none() {
    let mut near = Nearest::new(s(0.0), s(10.0));
    assert!(!near.offer(None));
    assert!(!near.offer(at(11.0)));
    assert!(near.finish().is_none());
}

#[test]
fn sphere_root_is_the_nearest_in_range() {
    let root = |d: f64, near: f64, far: f64, lo: f64, hi: f64| {
        nearest_root(s(d), s(near), s(far), s(lo), s(hi)).map(f)
    };
    assert_eq!(root(4.0, 1.0, 3.0, 0.001, f64::INFINITY), Some(1.0));
    assert_eq!(root(4.0, -1.0, 3.0, 0.001, f64::INFINITY), Some(3.0));
    assert_eq!(root(4.0, -3.0, -1.0, 0.001, f64::INFINITY), None);
    assert_eq!(root(4.0, 1.0, 3.0, 0.001, 0.5), None);
    assert_eq!(root(4.0, 1.0, 3.0, 1.0, 2.0), None);
    assert_eq!(root(4.0, 1.0, 3.0, 1.0, 3.0), Some(3.0));
    assert_eq!(root(4.0, 1.0, 3.0, 0.5, 1.0), Some(1.0));
    assert_eq!(root(0.0, 2.0, 2.0, 0.001, 10.0), Some(2.0));
    assert_eq!(root(-1e-9, 2.0, 2.0, 0.001, 10.0), None);
    assert_eq!(root(f64::NAN, f64::NAN, f64::NAN, 0.001, 10.0), None);
}

#[test]
fn sphere_holds_its_fields() {
    let ball = Sphere { center: point(0.0, 0.0, -1.0), radius: s(0.5), mat_ptr: 3 };
    assert_eq!(coords(ball.center), [0.0, 0.0, -1.0]);
    assert_eq!(f(ball.radius), 0.5);
    assert_eq!(ball.mat_ptr, 3);
    let moving = MovingSphere {
        center0: point(0.0, 0.0, 0.0),
        center1: point(0.0, 1.0, 0.0),
        time0: s(0.0),
        time1: s(1.0),
        radius: s(0.2),
        mat_ptr: 4,
    };
    assert_eq!(coords(moving.center1), [0.0, 1.0, 0.0]);
    assert_eq!(f(moving.time1), 1.0);
    assert_eq!(moving.mat_ptr, 4);
}

fn landing(t: f64, a: f64, b: f64, p: [f64; 3]) -> Landing {
    Landing { t: s(t), a: s(a), b: s(b), u: s(a / 10.0), v: s(b / 10.0), p: point(p[0], p[1], p[2]) }
}

fn ray(origin: [f64; 3], direction: [f64; 3]) -> Ray {
    Ray {
        origin: point(origin[0], origin[1], origin[2]),
        direction: point(direction[0], direction[1], direction[2]),
        tm: s(0.0),
    }
}

#[test]
fn inside_includes_both_ends() {
    assert!(inside(s(0.0), s(0.0), s(1.0)));
    assert!(inside(s(1.0), s(0.0), s(1.0)));
    assert!(inside(s(0.5), s(0.0), s(1.0)));
    assert!(!inside(s(1.5), s(0.0), s(1.0)));
    assert!(!inside(s(-0.5), s(0.0), s(1.0)));
    assert!(!inside(s(f64::NAN), s(0.0), s(1.0)));
}

#[test]
fn xy_rect_hit_and_miss() {
    let rect = XYRect::new(s(0.0), s(10.0), s(0.0), s(10.0), s(5.0), 9);
    let r = ray([5.0, 5.0, 0.0], [0.0, 0.0, 1.0]);
    let rec = rect.hit(&r, &landing(5.0, 5.0, 2.0, [5.0, 2.0, 5.0]), s(0.001), s(100.0)).unwrap();
    assert_eq!(f(rec.t), 5.0);
    assert_eq!(coords(rec.p), [5.0, 2.0, 5.0]);
    assert_eq!(f(rec.u), 0.5);
    assert_eq!(f(rec.v), 0.2);
    assert_eq!(rec.mat_ptr, 9);
    // The ray runs along the normal: it comes from behind.
    assert!(!rec.front_face);
    assert_eq!(coords(rec.normal), [-0.0, -0.0, -1.0]);
    let back = ray([5.0, 5.0, 10.0], [0.0, 0.0, -1.0]);
    let rec = rect.hit(&back, &landing(5.0, 5.0, 2.0, [5.0, 2.0, 5.0]), s(0.001), s(100.0)).unwrap();
    assert!(rec.front_face);
    assert_eq!(coords(rec.normal), [0.0, 0.0, 1.0]);
    assert!(rect.hit(&r, &landing(5.0, 11.0, 2.0, [11.0, 2.0, 5.0]), s(0.001), s(100.0)).is_none());
    assert!(rect.hit(&r, &landing(5.0, 5.0, -1.0, [5.0, -1.0, 5.0]), s(0.001), s(100.0)).is_none());
    assert!(rect.hit(&r, &landing(5.0, 5.0, 2.0, [5.0, 2.0, 5.0]), s(0.001), s(4.0)).is_none());
    assert!(rect.hit(&r, &landing(5.0, 5.0, 2.0, [5.0, 2.0, 5.0]), s(5.0), s(40.0)).is_none());
    assert!(rect.hit(&r, &landing(5.0, 10.0, 0.0, [10.0, 0.0, 5.0]), s(0.001), s(5.0)).is_some());
    let nan = f64::NAN;
    assert!(rect.hit(&r, &landing(nan, nan, nan, [nan, nan, nan]), s(0.001), s(100.0)).is_none());
    assert!(rect.hit(&r, &landing(5.0, nan, 2.0, [nan, 2.0, 5.0]), s(0.001), s(100.0)).is_none());
}

#[test]
fn xz_and_yz_rect_normals() {
    let floor = XZRect::new(s(0.0), s(10.0), s(0.0), s(10.0), s(0.0), 1);
    let down = ray([5.0, 5.0, 5.0], [0.0, -1.0, 0.0]);
    let rec = floor.hit(&down, &landing(5.0, 5.0, 5.0, [5.0, 0.0, 5.0]), s(0.001), s(100.0)).unwrap();
    assert!(rec.front_face);
    assert_eq!(coords(rec.normal), [0.0, 1.0, 0.0]);
    let wall = YZRect::new(s(0.0), s(10.0), s(0.0), s(10.0), s(555.0), 2);
    let right = ray([5.0, 5.0, 5.0], [1.0, 0.0, 0.0]);
    let rec = wall.hit(&right, &landing(550.0, 5.0, 5.0, [555.0, 5.0, 5.0]), s(0.001), s(1e9)).unwrap();
    assert!(!rec.front_face);
    assert_eq!(coords(rec.normal), [-1.0, -0.0, -0.0]);
    assert_eq!(rec.mat_ptr, 2);
}

#[test]
fn rect_bounding_box_needs_padding() {
    let rect = XYRect::new(s(0.0), s(10.0), s(1.0), s(11.0), s(5.0), 0);
    let b = rect.bounding_box(s(5.0 - 0.0001), s(5.0 + 0.0001)).unwrap();
    assert_eq!(coords(b.min()), [0.0, 1.0, 5.0 - 0.0001]);
    assert_eq!(coords(b.max()), [10.0, 11.0, 5.0 + 0.0001]);
    assert!(rect.bounding_box(s(5.0), s(5.0 + 0.0001)).is_none());
    assert!(rect.bounding_box(s(5.0 - 0.0001), s(5.0)).is_none());
    assert!(rect.bounding_box(s(f64::NAN), s(6.0)).is_none());
    // Far from the origin the padding is lost to rounding.
    let far = XYRect::new(s(0.0), s(1.0), s(0.0), s(1.0), s(1e20), 0);
    assert!(far.bounding_box(s(1e20 - 0.0001), s(1e20 + 0.0001)).is_none());
    let floor = XZRect::new(s(0.0), s(10.0), s(1.0), s(11.0), s(5.0), 0);
    let b = floor.bounding_box(s(4.0), s(6.0)).unwrap();
    assert_eq!(coords(b.min()), [0.0, 4.0, 1.0]);
    assert_eq!(coords(b.max()), [10.0, 6.0, 11.0]);
    let wall = YZRect::new(s(0.0), s(10.0), s(1.0), s(11.0), s(5.0), 0);
    let b = wall.bounding_box(s(4.0), s(6.0)).unwrap();
    assert_eq!(coords(b.min()), [4.0, 0.0, 1.0]);
    assert_eq!(coords(b.max()), [6.0, 10.0, 11.0]);
}

#[test]
fn abox_has_six_faces() {
    let b = ABox::new(&point(0.0, 1.0, 2.0), &point(10.0, 11.0, 12.0), 5);
    assert_eq!(b.sides.len(), 6);
    let plane = |side: &Side| match side {
        Side::XY(r) => ('z', f(r.k), [f(r.x0), f(r.x1), f(r.y0), f(r.y1)], r.mp),
        Side::XZ(r) => ('y', f(r.k), [f(r.x0), f(r.x1), f(r.z0), f(r.z1)], r.mp),
        Side::YZ(r) => ('x', f(r.k), [f(r.y0), f(r.y1), f(r.z0), f(r.z1)], r.mp),
    };
    let got: Vec<(char, f64, [f64; 4], usize)> = b.sides.iter().map(plane).collect();
    assert_eq!(
        got,
        vec![
            ('z', 12.0, [0.0, 10.0, 1.0, 11.0], 5),
            ('z', 2.0, [0.0, 10.0, 1.0, 11.0], 5),
            ('y', 11.0, [0.0, 10.0, 2.0, 12.0], 5),
            ('y', 1.0, [0.0, 10.0, 2.0, 12.0], 5),
            ('x', 10.0, [1.0, 11.0, 2.0, 12.0], 5),
            ('x', 0.0, [1.0, 11.0, 2.0, 12.0], 5),
        ]
    );
    let bounds = b.bounding_box();
    assert_eq!(coords(bounds.min()), [0.0, 1.0, 2.0]);
    assert_eq!(coords(bounds.max()), [10.0, 11.0, 12.0]);
}

fn segment(entry: Option<f64>, exit: Option<f64>, t_min: f64, t_max: f64) -> Option<(f64, f64)> {
    let rec = |t: Option<f64>| t.map(|t| HitRecord::blank(s(t)));
    ConstantMedium::segment(rec(entry), rec(exit), s(t_min), s(t_max))
        .map(|seg| (f(seg.enter), f(seg.exit)))
}

#[test]
fn medium_has_no_segment_for_a_ray_that_never_enters() {
    assert_eq!(segment(None, None, 0.001, f64::INFINITY), None);
    assert_eq!(segment(None, Some(3.0), 0.001, f64::INFINITY), None);
    assert_eq!(segment(Some(1.0), None, 0.001, f64::INFINITY), None);
}

#[test]
fn medium_has_no_segment_of_zero_length() {
    assert_eq!(segment(Some(2.0), Some(2.0), 0.001, f64::INFINITY), None);
    assert_eq!(segment(Some(3.0), Some(2.0), 0.001, f64::INFINITY), None);
    assert_eq!(segment(Some(1.0), Some(2.0), 2.0, f64::INFINITY), None);
    assert_eq!(segment(Some(1.0), Some(2.0), 0.001, 1.0), None);
    assert_eq!(segment(Some(1.0), Some(2.0), 5.0, 3.0), None);
    assert_eq!(segment(Some(f64::NAN), Some(2.0), 0.001, 10.0), None);
    assert_eq!(segment(Some(1.0), Some(f64::NAN), 0.001, 10.0), None);
}

#[test]
fn medium_segment_is_clipped_to_the_range() {
    assert_eq!(segment(Some(1.0), Some(4.0), 0.001, f64::INFINITY), Some((1.0, 4.0)));
    assert_eq!(segment(Some(1.0), Some(4.0), 2.0, 3.0), Some((2.0, 3.0)));
    assert_eq!(segment(Some(1.0), Some(4.0), 0.001, 3.0), Some((1.0, 3.0)));
    assert_eq!(segment(Some(-2.0), Some(4.0), 0.001, 10.0), Some((0.001, 4.0)));
    // An entry behind the origin is moved to the origin.
    assert_eq!(segment(Some(-2.0), Some(4.0), -5.0, 10.0), Some((0.0, 4.0)));
    assert_eq!(segment(Some(-2.0), Some(-1.0), -5.0, 10.0), Some((0.0, -1.0)));
}

#[test]
fn medium_scatters_within_its_segment() {
    let medium = ConstantMedium::new(s(-1.0 / 0.01), 6);
    assert_eq!(f(medium.neg_inv_density), -100.0);
    let rec = medium.hit(s(1.5), s(2.0), s(3.25), point(1.0, 2.0, 3.0)).unwrap();
    assert_eq!(f(rec.t), 3.25);
    assert_eq!(coords(rec.p), [1.0, 2.0, 3.0]);
    assert_eq!(coords(rec.normal), [1.0, 0.0, 0.0]);
    assert!(rec.front_face);
    assert_eq!(rec.mat_ptr, 6);
    assert!(medium.hit(s(2.0), s(2.0), s(3.0), point(0.0, 0.0, 0.0)).is_some());
    assert!(medium.hit(s(2.5), s(2.0), s(3.0), point(0.0, 0.0, 0.0)).is_none());
    assert!(medium.hit(s(f64::INFINITY), s(2.0), s(3.0), point(0.0, 0.0, 0.0)).is_none());
    assert!(medium.hit(s(f64::NAN), s(2.0), s(3.0), point(0.0, 0.0, 0.0)).is_none());
    assert!(medium.hit(s(0.5), s(-1.0), s(3.0), point(0.0, 0.0, 0.0)).is_none());
}

#[test]
fn ray_holds_origin_direction_and_time() {
    let r = Ray { origin: point(1.0, 2.0, 3.0), direction: point(0.0, -1.0, 0.5), tm: s(0.25) };
    assert_eq!(coords(r.origin()), [1.0, 2.0, 3.0]);
    assert_eq!(coords(r.direction()), [0.0, -1.0, 0.5]);
    assert_eq!(f(r.time()), 0.25);
}
