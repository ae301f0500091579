use ray_tracing_rust::constant_medium::ConstantMedium;
use ray_tracing_rust::hittable::HitRecord;
use ray_tracing_rust::integrator::{carries, ray_color, Bounce, Vertex};
use ray_tracing_rust::material::{
    DefaultMaterial, Dialectric, DiffuseLight, Isotropic, Lambertian, Metal, ScatterRecord,
    FOUR_PI_BITS,
};
use ray_tracing_rust::onb::Onb;
use ray_tracing_rust::pdf::{
    CosinePdf, HittablePdf, MixturePdf, Part, SpherePdf, INV_FOUR_PI_BITS,
};
use ray_tracing_rust::perlin::{Perlin, POINT_COUNT};
use ray_tracing_rust::ray::Ray;
use ray_tracing_rust::scalar::Scalar;
use ray_tracing_rust::texture::{CheckerTexture, ImageTexture, SolidColor};
use ray_tracing_rust::vec3::{Color, Point3, Vec3};

fn s(x: f64) -> Scalar {
    Scalar::from_bits(x.to_bits())
}

fn f(x: Scalar) -> f64 {
    f64::from_bits(x.to_bits())
}

fn point(x: f64, y: f64, z: f64) -> Point3 {
    Vec3::new(s(x), s(y), s(z))
}

fn coords(p: Point3) -> [f64; 3] {
    [f(p.x()), f(p.y()), f(p.z())]
}

fn scatter(skip_pdf: bool) -> ScatterRecord {
    ScatterRecord {
        attenuation: point(0.5, 0.5, 0.5),
        skip_pdf,
        skip_pdf_ray: Ray {
            origin: point(0.0, 0.0, 0.0),
            direction: point(0.0, 0.0, 1.0),
            tm: s(0.0),
        },
    }
}

#[test]
fn ray_color_with_no_depth_left_is_exhausted() {
    for v in [Vertex::Miss, Vertex::Absorbed, Vertex::Specular, Vertex::Diffuse] {
        assert_eq!(ray_color(0, v), (Bounce::Exhausted, 0));
    }
}

#[test]
fn ray_color_steps() {
    assert_eq!(ray_color(50, Vertex::Miss), (Bounce::Background, 50));
    assert_eq!(ray_color(50, Vertex::Absorbed), (Bounce::Emitted, 50));
    assert_eq!(ray_color(50, Vertex::Specular), (Bounce::Specular, 49));
    assert_eq!(ray_color(50, Vertex::Diffuse), (Bounce::Diffuse, 49));
    assert_eq!(ray_color(1, Vertex::Diffuse), (Bounce::Diffuse, 0));
    assert!(Bounce::Specular.goes_on());
    assert!(Bounce::Diffuse.goes_on());
    assert!(!Bounce::Background.goes_on());
    assert!(!Bounce::Emitted.goes_on());
    assert!(!Bounce::Exhausted.goes_on());
}

#[test]
fn ray_color_path_ends_within_its_depth() {
    for depth in [0u64, 1, 2, 50] {
        let mut left = depth;
        let mut cast = 0u64;
        loop {
            let (bounce, next) = ray_color(left, if cast % 2 == 0 { Vertex::Diffuse } else { Vertex::Specular });
            if !bounce.goes_on() {
                assert_eq!(bounce, Bounce::Exhausted);
                break;
            }
            left = next;
            cast += 1;
            assert!(cast <= depth);
        }
        assert_eq!(cast, depth);
    }
}

#[test]
fn vertex_observes_hit_and_scatter() {
    let hit = Some(HitRecord::blank(s(1.0)));
    assert_eq!(Vertex::observe(&None, &None), Vertex::Miss);
    assert_eq!(Vertex::observe(&None, &Some(scatter(true))), Vertex::Miss);
    assert_eq!(Vertex::observe(&hit, &None), Vertex::Absorbed);
    assert_eq!(Vertex::observe(&hit, &Some(scatter(true))), Vertex::Specular);
    assert_eq!(Vertex::observe(&hit, &Some(scatter(false))), Vertex::Diffuse);
}

#[test]
fn zero_density_carries_nothing() {
    assert!(!carries(s(0.0)));
    assert!(!carries(s(-0.0)));
    assert!(!carries(s(f64::NAN)));
    assert!(carries(s(0.25)));
    assert!(carries(s(5e-324)));
    assert!(carries(s(f64::INFINITY)));
    assert!(carries(s(-1.0)));
}

#[test]
fn default_material_scatters_and_emits_black() {
    let m = DefaultMaterial;
    assert!(m.scatter());
    assert_eq!(coords(m.emitted()), [0.0, 0.0, 0.0]);
}

#[test]
fn diffuse_light_emits_from_its_front_face() {
    let light = DiffuseLight::new(4);
    assert_eq!(light.emit, 4);
    let value: Color = point(15.0, 15.0, 15.0);
    let mut rec = HitRecord::blank(s(1.0));
    rec.front_face = true;
    assert_eq!(coords(light.emitted(&rec, value)), [15.0, 15.0, 15.0]);
    rec.front_face = false;
    assert_eq!(coords(light.emitted(&rec, value)), [0.0, 0.0, 0.0]);
}

#[test]
fn lambertian_density_is_zero_below_the_surface() {
    assert_eq!(Lambertian::new(2).albedo, 2);
    let pi = std::f64::consts::PI;
    assert_eq!(f(Lambertian::scattering_pdf(s(0.5), s(0.5 / pi))), 0.5 / pi);
    assert_eq!(f(Lambertian::scattering_pdf(s(-0.5), s(-0.5 / pi))), 0.0);
    assert_eq!(f(Lambertian::scattering_pdf(s(0.0), s(0.0))), 0.0);
    assert!(f(Lambertian::scattering_pdf(s(f64::NAN), s(f64::NAN))).is_nan());
}

#[test]
fn dielectric_reflects_or_refracts() {
    let glass = Dialectric { ir: s(1.5) };
    assert_eq!(f(glass.refraction_ratio(true, s(1.0 / 1.5))), 1.0 / 1.5);
    assert_eq!(f(glass.refraction_ratio(false, s(1.0 / 1.5))), 1.5);
    // Total internal reflection.
    assert!(Dialectric::reflects(s(1.2), s(0.0), s(0.9)));
    // The reflectance beats the draw.
    assert!(Dialectric::reflects(s(0.5), s(0.8), s(0.3)));
    assert!(!Dialectric::reflects(s(0.5), s(0.2), s(0.3)));
    assert!(!Dialectric::reflects(s(1.0), s(0.3), s(0.3)));
    assert!(!Dialectric::reflects(s(f64::NAN), s(f64::NAN), s(0.3)));
}

#[test]
fn isotropic_and_metal() {
    assert_eq!(Isotropic::new(3).albedo, 3);
    assert_eq!(Isotropic::new_texture(8).albedo, 8);
    assert_eq!(f(Isotropic::scattering_pdf()), 1.0 * (4.0 * std::f64::consts::PI));
    assert_eq!(FOUR_PI_BITS, (4.0 * std::f64::consts::PI).to_bits());
    let metal = Metal { albedo: point(0.8, 0.85, 0.88), fuzz: s(0.0) };
    assert_eq!(coords(metal.albedo), [0.8, 0.85, 0.88]);
    assert_eq!(f(metal.fuzz), 0.0);
}

#[test]
fn sphere_pdf_is_uniform() {
    assert_eq!(f(SpherePdf.value()), 1.0 / (4.0 * std::f64::consts::PI));
    assert_eq!(INV_FOUR_PI_BITS, (1.0 / (4.0 * std::f64::consts::PI)).to_bits());
}

#[test]
fn cosine_pdf_is_never_negative() {
    let pi = std::f64::consts::PI;
    for cos in [-1.0f64, -0.5, -0.0, 0.0, 0.25, 1.0, f64::NAN] {
        let got = f(CosinePdf::value(s(cos / pi)));
        let want = (0.0f64).max(cos / pi);
        assert!(got == want);
        assert!(got >= 0.0);
    }
}

#[test]
fn pdfs_hold_what_they_are_built_from() {
    let basis = Onb(point(1.0, 0.0, 0.0), point(0.0, 1.0, 0.0), point(0.0, 0.0, 1.0));
    let pdf = CosinePdf::new(basis);
    assert_eq!(coords(pdf.uvw.w()), [0.0, 0.0, 1.0]);
    let towards = HittablePdf { objects: 2, origin: point(1.0, 2.0, 3.0) };
    assert_eq!(towards.objects, 2);
    assert_eq!(coords(towards.origin), [1.0, 2.0, 3.0]);
}

#[test]
fn mixture_pdf_picks_by_halves() {
    assert_eq!(MixturePdf::generate(s(0.0)), Part::First);
    assert_eq!(MixturePdf::generate(s(0.25)), Part::First);
    assert_eq!(MixturePdf::generate(s(0.4999999999999999)), Part::First);
    assert_eq!(MixturePdf::generate(s(0.5)), Part::Second);
    assert_eq!(MixturePdf::generate(s(0.75)), Part::Second);
    assert_eq!(MixturePdf::generate(s(f64::NAN)), Part::Second);
}

#[test]
fn mixture_value_is_the_mean_of_its_parts() {
    // The mean is the caller's arithmetic; what the library adds is the
    // clamp of the cosine density that enters it.
    let pi = std::f64::consts::PI;
    let a = f(CosinePdf::value(s(0.6 / pi)));
    let b = f(SpherePdf.value());
    let mixture = 0.5 * a + 0.5 * b;
    assert!((mixture - (0.5 * (0.6 / pi) + 0.5 / (4.0 * pi))).abs() < 1e-12);
}

#[test]
fn solid_color_is_the_same_everywhere() {
    let t = SolidColor::new(s(0.73), s(0.5), s(0.25));
    assert_eq!(coords(t.color_value), [0.73, 0.5, 0.25]);
    assert_eq!(coords(t.value(s(0.0), s(0.0), &point(0.0, 0.0, 0.0))), [0.73, 0.5, 0.25]);
    assert_eq!(coords(t.value(s(0.3), s(0.9), &point(1.0, -2.0, 3.0))), [0.73, 0.5, 0.25]);
}

#[test]
fn checker_picks_by_the_sign_of_the_sines() {
    let t = CheckerTexture::new(10, 11);
    assert_eq!(t.even, 10);
    assert_eq!(t.odd, 11);
    assert_eq!(t.value(s(-0.2)), 11);
    assert_eq!(t.value(s(0.2)), 10);
    assert_eq!(t.value(s(0.0)), 10);
    assert_eq!(t.value(s(-0.0)), 10);
    assert_eq!(t.value(s(f64::NAN)), 10);
}

#[test]
fn image_texture_looks_up_texels() {
    // Two columns, three rows.
    let data: Vec<u8> = (0u8..18).collect();
    let t = ImageTexture::new(data, 2, 3).unwrap();
    assert_eq!(t.bytes_per_scanline(), 6);
    assert_eq!((t.width(), t.height()), (2, 3));
    assert_eq!(t.texel(0, 0), (0, 1, 2));
    assert_eq!(t.texel(1, 0), (3, 4, 5));
    assert_eq!(t.texel(0, 1), (6, 7, 8));
    assert_eq!(t.texel(1, 2), (15, 16, 17));
    // Past the edge the last column and row are taken.
    assert_eq!(t.texel(2, 0), (3, 4, 5));
    assert_eq!(t.texel(0, 3), (12, 13, 14));
    assert_eq!(t.texel(u32::MAX, u32::MAX), (15, 16, 17));
}

#[test]
fn image_texture_rejects_sizes_that_do_not_fit() {
    assert!(ImageTexture::new(vec![0; 18], 0, 3).is_none());
    assert!(ImageTexture::new(vec![0; 18], 2, 0).is_none());
    assert!(ImageTexture::new(vec![0; 17], 2, 3).is_none());
    assert!(ImageTexture::new(Vec::new(), u32::MAX, 1).is_none());
    assert!(ImageTexture::new(Vec::new(), 0x5555_5556, 1).is_none());
    assert!(ImageTexture::new(vec![0; 18], 3, 2).is_some());
    // Bytes beyond the last pixel are not looked at.
    let long = ImageTexture::new((0u8..19).collect(), 2, 3).unwrap();
    assert_eq!(long.texel(1, 2), (15, 16, 17));
}

fn gradients() -> Vec<Vec3> {
    (0..POINT_COUNT).map(|i| point(i as f64, 0.0, 0.0)).collect()
}

#[test]
fn perlin_tables_are_permutations() {
    let noise = Perlin::new(gradients()).unwrap();
    for table in [noise.perm_x(), noise.perm_y(), noise.perm_z()] {
        assert_eq!(table.len(), POINT_COUNT);
        let mut seen = vec![false; POINT_COUNT];
        for &v in table.iter() {
            assert!(v < POINT_COUNT);
            assert!(!seen[v]);
            seen[v] = true;
        }
    }
    // A shuffle that left all three tables in order would not be one.
    let identity: Vec<usize> = (0..POINT_COUNT).collect();
    assert!(
        *noise.perm_x() != identity || *noise.perm_y() != identity || *noise.perm_z() != identity
    );
}

#[test]
fn perlin_needs_a_gradient_for_each_index() {
    assert!(Perlin::new(Vec::new()).is_none());
    assert!(Perlin::new(vec![point(0.0, 0.0, 0.0); 255]).is_none());
    assert!(Perlin::new(vec![point(0.0, 0.0, 0.0); 257]).is_none());
}

#[test]
fn perlin_permute_shuffles_a_prefix() {
    let mut p: Vec<usize> = (0..10).collect();
    Perlin::permute(&mut p, 6);
    assert_eq!(&p[6..], &[6, 7, 8, 9]);
    let mut head: Vec<usize> = p[..6].to_vec();
    head.sort();
    assert_eq!(head, vec![0, 1, 2, 3, 4, 5]);
    let mut q: Vec<usize> = (0..4).collect();
    Perlin::permute(&mut q, 1);
    assert_eq!(q, vec![0, 1, 2, 3]);
    Perlin::permute(&mut q, 0);
    assert_eq!(q, vec![0, 1, 2, 3]);
    // Each entry is exchanged with one before it: the last never stays.
    let mut r: Vec<usize> = (0..2).collect();
    Perlin::permute(&mut r, 2);
    assert_eq!(r, vec![1, 0]);
    // What is shuffled need not be a permutation of indices.
    let mut t: Vec<usize> = vec![7, 7, 40, 3];
    Perlin::permute(&mut t, 4);
    t.sort();
    assert_eq!(t, vec![3, 7, 7, 40]);
}

#[test]
fn perlin_lattice_hashes_the_corners() {
    let noise = Perlin::new(gradients()).unwrap();
    let hash = |i: i64, j: i64, k: i64| {
        let fold = |x: i64| x.rem_euclid(256) as usize;
        (noise.perm_x()[fold(i)] ^ noise.perm_y()[fold(j)] ^ noise.perm_z()[fold(k)]) as f64
    };
    for &(i, j, k) in [
        (0i32, 0i32, 0i32),
        (1, 2, 3),
        (255, 255, 255),
        (256, -1, -256),
        (-7, 1000, -1000),
        (i32::MAX, i32::MIN, -1),
    ]
    .iter()
    {
        let cell: Vec<f64> = noise.lattice(i, j, k).iter().map(|v| f(v.x())).collect();
        let (i, j, k) = (i as i64, j as i64, k as i64);
        let want = vec![
            hash(i, j, k),
            hash(i, j, k + 1),
            hash(i, j + 1, k),
            hash(i, j + 1, k + 1),
            hash(i + 1, j, k),
            hash(i + 1, j, k + 1),
            hash(i + 1, j + 1, k),
            hash(i + 1, j + 1, k + 1),
        ];
        assert_eq!(cell, want);
    }
}

struct Lcg(u64);

impl Lcg {
    fn next(&mut self) -> f64 {
        self.0 = self.0.wrapping_mul(6364136223846793005).wrapping_add(1442695040888963407);
        ((self.0 >> 11) as f64) / ((1u64 << 53) as f64)
    }
}

#[test]
fn cosine_pdf_round_trip() {
    // Directions drawn with the cosine density around the z axis, weighted by
    // the inverse of that density, integrate the cosine over the hemisphere.
    let pi = std::f64::consts::PI;
    let mut rng = Lcg(1);
    let n = 100_000;
    let mut sum = 0.0;
    for _ in 0..n {
        let r1 = rng.next();
        let r2 = rng.next();
        let phi = 2.0 * pi * r1;
        let direction = [phi.cos() * r2.sqrt(), phi.sin() * r2.sqrt(), (1.0 - r2).sqrt()];
        let cos = direction[2];
        let density = f(CosinePdf::value(s(cos / pi)));
        if density > 0.0 {
            sum += cos / density;
        }
    }
    let mean = sum / n as f64;
    assert!((mean - pi).abs() < 0.05 * pi);
}

#[test]
fn medium_free_flight_is_exponential() {
    let density = 2.0;
    let medium = ConstantMedium::new(s(-1.0 / density), 0);
    let mut rng = Lcg(3);
    let n = 100_000;
    let way = 1.0;
    let mut scattered = 0;
    let mut total = 0.0;
    for _ in 0..n {
        let hit_distance = f(medium.neg_inv_density) * rng.next().ln();
        total += hit_distance;
        if medium.hit(s(hit_distance), s(way), s(hit_distance), point(0.0, 0.0, 0.0)).is_some() {
            scattered += 1;
        }
    }
    let mean = total / n as f64;
    assert!((mean - 1.0 / density).abs() < 0.02 / density);
    let share = scattered as f64 / n as f64;
    let want = 1.0 - (-density * way).exp();
    assert!((share - want).abs() < 0.01);
}

#[test]
fn perlin_generate_perm_is_a_permutation() {
    for _ in 0..10 {
        let table = Perlin::perlin_generate_perm();
        let mut sorted = table.clone();
        sorted.sort();
        assert_eq!(sorted, (0..POINT_COUNT).collect::<Vec<usize>>());
        // The last entry is exchanged with an earlier one: it never stays.
        assert_ne!(table[POINT_COUNT - 1], POINT_COUNT - 1);
    }
}
