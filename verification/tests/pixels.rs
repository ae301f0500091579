use ray_tracing_rust::aabb::AABB;
use ray_tracing_rust::color::{to_byte, write_color, BRIGHTEST_BITS};
use ray_tracing_rust::hittable::{HitRecord, RotateY, Translate};
use ray_tracing_rust::onb::{Onb, NEARLY_PARALLEL_BITS};
use ray_tracing_rust::scalar::Scalar;
use ray_tracing_rust::vec3::{
    random_in_hemisphere, random_in_unit_disk, random_in_unit_sphere, Point3, Vec3,
};

fn s(x: f64) -> Scalar {
    Scalar::from_bits(x.to_bits())
}

fn f(x: Scalar) -> f64 {
    f64::from_bits(x.to_bits())
}

fn point(x: f64, y: f64, z: f64) -> Point3 {
    Vec3::new(s(x), s(y), s(z))
}

fn coords(p: Point3) -> [f64; 3] {
    [f(p.x()), f(p.y()), f(p.z())]
}

fn clamp_reference(x: f64, min: f64, max: f64) -> f64 {
    if x < min {
        return min;
    }
    if x > max {
        return max;
    }
    x
}

fn byte_reference(x: f64) -> u64 {
    (256.0 * clamp_reference(x, 0.0, 0.999)) as u64
}

struct Lcg(u64);

impl Lcg {
    fn next(&mut self) -> f64 {
        self.0 = self.0.wrapping_mul(6364136223846793005).wrapping_add(1442695040888963407);
        ((self.0 >> 11) as f64) / ((1u64 << 53) as f64)
    }
}

#[test]
fn to_byte_at_chosen_channels() {
    assert_eq!(BRIGHTEST_BITS, 0.999f64.to_bits());
    assert_eq!(to_byte(s(0.0)), 0);
    assert_eq!(to_byte(s(-0.0)), 0);
    assert_eq!(to_byte(s(-3.0)), 0);
    assert_eq!(to_byte(s(1e-300)), 0);
    assert_eq!(to_byte(s(5e-324)), 0);
    assert_eq!(to_byte(s(0.00390624)), 0);
    assert_eq!(to_byte(s(0.00390625)), 1);
    assert_eq!(to_byte(s(0.25)), 64);
    assert_eq!(to_byte(s(0.5)), 128);
    assert_eq!(to_byte(s(0.7)), 179);
    assert_eq!(to_byte(s(0.99)), 253);
    assert_eq!(to_byte(s(0.999)), 255);
    assert_eq!(to_byte(s(1.0)), 255);
    assert_eq!(to_byte(s(15.0)), 255);
    assert_eq!(to_byte(s(f64::INFINITY)), 255);
    assert_eq!(to_byte(s(f64::NEG_INFINITY)), 0);
    assert_eq!(to_byte(s(f64::NAN)), 0);
}

#[test]
fn to_byte_agrees_with_the_cast_of_doubles() {
    let mut rng = Lcg(5);
    for i in 0..20000 {
        let x = match i % 4 {
            0 => rng.next(),
            1 => rng.next() * 1.2 - 0.1,
            2 => rng.next() * rng.next() * rng.next() * rng.next(),
            _ => (rng.next() * 256.0).floor() / 256.0,
        };
        assert_eq!(to_byte(s(x)) as u64, byte_reference(x));
    }
    for k in 0..=256 {
        let edge = k as f64 / 256.0;
        for x in [edge, f64::from_bits(edge.to_bits().wrapping_sub(1)), f64::from_bits(edge.to_bits() + 1)] {
            assert_eq!(to_byte(s(x)) as u64, byte_reference(x));
        }
    }
}

#[test]
fn to_byte_never_decreases() {
    let mut rng = Lcg(8);
    let mut xs: Vec<f64> = (0..2000).map(|_| rng.next() * 1.5 - 0.25).collect();
    xs.sort_by(|a, b| a.partial_cmp(b).unwrap());
    for w in xs.windows(2) {
        assert!(to_byte(s(w[0])) <= to_byte(s(w[1])));
    }
}

#[test]
fn write_color_gives_three_bytes() {
    // A pixel summed over four samples, averaged and gamma-corrected.
    let sum = [1.0f64, 2.0, 8.0];
    let channel = |c: f64| (c / 4.0).sqrt();
    let pixel = point(channel(sum[0]), channel(sum[1]), channel(sum[2]));
    assert_eq!(write_color(pixel), (128, 181, 255));
    assert_eq!(write_color(point(0.0, f64::NAN, -1.0)), (0, 0, 0));
}

#[test]
fn unit_ball_candidates() {
    let v = point(0.5, 0.5, 0.5);
    assert_eq!(random_in_unit_sphere(v, s(0.75)).map(coords), Some([0.5, 0.5, 0.5]));
    assert!(random_in_unit_sphere(v, s(1.0)).is_none());
    assert!(random_in_unit_sphere(v, s(2.5)).is_none());
    assert!(random_in_unit_sphere(v, s(f64::NAN)).is_none());
    assert!(random_in_unit_sphere(v, s(0.0)).is_some());
}

#[test]
fn unit_disk_candidates() {
    let v = point(0.5, -0.5, 0.0);
    assert_eq!(random_in_unit_disk(v, s(0.5)).map(coords), Some([0.5, -0.5, 0.0]));
    assert!(random_in_unit_disk(v, s(1.0)).is_none());
    assert!(random_in_unit_disk(v, s(1.5)).is_none());
    assert!(random_in_unit_disk(v, s(f64::NAN)).is_none());
}

#[test]
fn hemisphere_turns_towards_the_normal() {
    let v = point(0.5, -0.25, 0.125);
    assert_eq!(coords(random_in_hemisphere(v, s(0.3))), [0.5, -0.25, 0.125]);
    assert_eq!(coords(random_in_hemisphere(v, s(-0.3))), [-0.5, 0.25, -0.125]);
    assert_eq!(coords(random_in_hemisphere(v, s(0.0))), [-0.5, 0.25, -0.125]);
}

#[test]
fn onb_axes_and_helper() {
    assert_eq!(NEARLY_PARALLEL_BITS, 0.9f64.to_bits());
    let mut basis = Onb(point(0.0, 0.0, 0.0), point(0.0, 0.0, 0.0), point(0.0, 0.0, 0.0));
    assert_eq!(coords(Onb::helper(point(0.0, 0.0, 1.0))), [1.0, 0.0, 0.0]);
    assert_eq!(coords(Onb::helper(point(0.9, 0.0, 0.4))), [1.0, 0.0, 0.0]);
    assert_eq!(coords(Onb::helper(point(0.95, 0.0, 0.3))), [0.0, 1.0, 0.0]);
    assert_eq!(coords(Onb::helper(point(-0.95, 0.0, 0.3))), [0.0, 1.0, 0.0]);
    basis.build_from_w(point(0.0, 0.0, 1.0), point(0.0, 1.0, 0.0), point(-1.0, 0.0, 0.0));
    assert_eq!(coords(basis.u()), [-1.0, 0.0, 0.0]);
    assert_eq!(coords(basis.v()), [0.0, 1.0, 0.0]);
    assert_eq!(coords(basis.w()), [0.0, 0.0, 1.0]);
    assert_eq!(coords(basis.axis(0)), [-1.0, 0.0, 0.0]);
    assert_eq!(coords(basis.axis(1)), [0.0, 1.0, 0.0]);
    assert_eq!(coords(basis.axis(2)), [0.0, 0.0, 1.0]);
    assert_eq!(coords(basis.axis(9)), [0.0, 0.0, 1.0]);
}

#[test]
fn translate_moves_the_hit_point() {
    let t = Translate::new(point(265.0, 0.0, 295.0));
    assert_eq!(coords(t.offset), [265.0, 0.0, 295.0]);
    let mut rec = HitRecord::blank(s(2.0));
    rec.p = point(1.0, 2.0, 3.0);
    rec.normal = point(0.0, 1.0, 0.0);
    rec.mat_ptr = 3;
    let out = Translate::hit(Some(rec), point(266.0, 2.0, 298.0), s(-0.5)).unwrap();
    assert_eq!(coords(out.p), [266.0, 2.0, 298.0]);
    assert_eq!(coords(out.normal), [0.0, 1.0, 0.0]);
    assert!(out.front_face);
    assert_eq!(f(out.t), 2.0);
    assert_eq!(out.mat_ptr, 3);
    let out = Translate::hit(Some(rec), point(266.0, 2.0, 298.0), s(0.5)).unwrap();
    assert_eq!(coords(out.normal), [-0.0, -1.0, -0.0]);
    assert!(!out.front_face);
    assert!(Translate::hit(None, point(0.0, 0.0, 0.0), s(-1.0)).is_none());
}

#[test]
fn translate_moves_the_box() {
    let inner = AABB { minimum: point(0.0, 0.0, 0.0), maximum: point(1.0, 1.0, 1.0) };
    let b = Translate::bounding_box(Some(inner), point(5.0, 0.0, 0.0), point(6.0, 1.0, 1.0)).unwrap();
    assert_eq!(coords(b.min()), [5.0, 0.0, 0.0]);
    assert_eq!(coords(b.max()), [6.0, 1.0, 1.0]);
    assert!(Translate::bounding_box(None, point(5.0, 0.0, 0.0), point(6.0, 1.0, 1.0)).is_none());
}

#[test]
fn rotate_y_box_spans_the_turned_corners() {
    let inner = AABB { minimum: point(0.0, 0.0, 0.0), maximum: point(2.0, 3.0, 4.0) };
    let radians = 90.0f64.to_radians();
    let (sin, cos) = (radians.sin(), radians.cos());
    let turned: Vec<Point3> = RotateY::corners(Some(inner))
        .into_iter()
        .map(|p| {
            let [x, y, z] = coords(p);
            point(cos * x + sin * z, y, -sin * x + cos * z)
        })
        .collect();
    let r = RotateY::new(s(sin), s(cos), true, &turned);
    assert_eq!(f(r.sin_theta), sin);
    assert_eq!(f(r.cos_theta), cos);
    let b = r.bounding_box().unwrap();
    let lo = coords(b.min());
    let hi = coords(b.max());
    assert!((lo[0] - 0.0).abs() < 1e-12 && (hi[0] - 4.0).abs() < 1e-12);
    assert_eq!((lo[1], hi[1]), (0.0, 3.0));
    assert!((lo[2] + 2.0).abs() < 1e-12 && (hi[2] - 0.0).abs() < 1e-12);
    let none = RotateY::new(s(sin), s(cos), false, &RotateY::corners(None));
    assert!(none.bounding_box().is_none());
    assert_eq!(coords(none.bbox.min()), [0.0, 0.0, 0.0]);
    assert_eq!(coords(none.bbox.max()), [0.0, 0.0, 0.0]);
    assert_eq!(RotateY::corners(None).len(), 8);
}

#[test]
fn rotate_y_turns_point_and_normal() {
    let mut rec = HitRecord::blank(s(2.0));
    rec.p = point(1.0, 2.0, 3.0);
    rec.normal = point(0.0, 0.0, 1.0);
    let out = RotateY::hit(Some(rec), point(3.0, 2.0, -1.0), point(1.0, 0.0, 0.0), s(0.25)).unwrap();
    assert_eq!(coords(out.p), [3.0, 2.0, -1.0]);
    assert_eq!(coords(out.normal), [-1.0, -0.0, -0.0]);
    assert!(!out.front_face);
    assert_eq!(f(out.t), 2.0);
    assert!(RotateY::hit(None, point(0.0, 0.0, 0.0), point(1.0, 0.0, 0.0), s(0.25)).is_none());
}
