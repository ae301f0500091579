//! What materials decide: whether light is emitted, whether a ray is
//! reflected or refracted, and which density a scattered direction has.
use vstd::prelude::*;
use crate::hittable::HitRecord;
use crate::ray::Ray;
use crate::scalar::{Scalar, ONE_BITS};
use crate::vec3::{Color, Vec3};

verus! {

/// The bit pattern of `4 * PI`.
pub const FOUR_PI_BITS: u64 = 0x4029_21fb_5444_2d18;

/// What a material scatters.
#[derive(Clone, Copy, Debug)]
pub struct ScatterRecord {
    /// The share of the light that the surface passes on.
    pub attenuation: Color,
    /// Whether the material fixed the scattered ray itself.
    pub skip_pdf: bool,
    /// The scattered ray, where the material fixed it.
    pub skip_pdf_ray: Ray,
}

/// The material of a record that no surface has filled in: it scatters
/// without effect and emits nothing.
#[derive(Clone, Copy, Debug)]
pub struct DefaultMaterial;

impl DefaultMaterial {
    /// Whether the material scatters: always.
    pub fn scatter(&self) -> (r: bool)
        ensures
            r,
    {
        true
    }

    /// What the material emits: black.
    pub fn emitted(&self) -> (c: Color)
        ensures
            c == Vec3(Scalar { bits: 0 }, Scalar { bits: 0 }, Scalar { bits: 0 }),
    {
        Vec3::zero()
    }
}

/// A material that emits light.
#[derive(Clone, Copy, Debug)]
pub struct DiffuseLight {
    /// The texture of the emitted light, as its index in the scene's
    /// textures.
    pub emit: usize,
}

impl DiffuseLight {
    /// A light that emits the texture with index `emit`.
    pub fn new(emit: usize) -> (l: DiffuseLight)
        ensures
            l.emit == emit,
    {
        DiffuseLight { emit }
    }

    /// What the light emits towards a ray that hit it: the `value` of its
    /// texture at the hit from the front face, black from the back.
    pub fn emitted(&self, rec: &HitRecord, value: Color) -> (c: Color)
        ensures
            c == if rec.front_face {
                value
            } else {
                Vec3(Scalar { bits: 0 }, Scalar { bits: 0 }, Scalar { bits: 0 })
            },
    {
        if rec.front_face {
            value
        } else {
            Vec3::zero()
        }
    }
}

/// A diffuse material.
#[derive(Clone, Copy, Debug)]
pub struct Lambertian {
    /// The texture of the albedo, as its index in the scene's textures.
    pub albedo: usize,
}

impl Lambertian {
    /// A diffuse material whose albedo is the texture with index `albedo`.
    pub fn new(albedo: usize) -> (l: Lambertian)
        ensures
            l.albedo == albedo,
    {
        Lambertian { albedo }
    }

    /// The density of a scattered direction: `cos_over_pi`, the cosine of its
    /// angle to the normal divided by PI, where the cosine is not negative,
    /// and zero below the surface.
    pub fn scattering_pdf(cos_theta: Scalar, cos_over_pi: Scalar) -> (d: Scalar)
        ensures
            d == if cos_theta.less(Scalar { bits: 0 }) {
                Scalar { bits: 0 }
            } else {
                cos_over_pi
            },
    {
        if cos_theta.lt(Scalar::zero()) {
            Scalar::zero()
        } else {
            cos_over_pi
        }
    }
}

/// A mirror, blurred by `fuzz`.
#[derive(Clone, Copy, Debug)]
pub struct Metal {
    pub albedo: Color,
    pub fuzz: Scalar,
}

/// A transparent material with refractive index `ir`.
#[derive(Clone, Copy, Debug)]
pub struct Dialectric {
    pub ir: Scalar,
}

impl Dialectric {
    /// The ratio of the refractive indices across the surface: `inverse`,
    /// which is `1 / ir`, for a ray that enters through the front face, and
    /// `ir` for one that leaves.
    pub fn refraction_ratio(&self, front_face: bool, inverse: Scalar) -> (r: Scalar)
        ensures
            r == if front_face {
                inverse
            } else {
                self.ir
            },
    {
        if front_face {
            inverse
        } else {
            self.ir
        }
    }

    /// Whether the ray is reflected rather than refracted. It is where
    /// refraction is impossible, `ratio_sine`, the refraction ratio times the
    /// sine of the angle of incidence, being above one; and where the
    /// reflectance at that angle is above the uniform `draw`.
    pub fn reflects(ratio_sine: Scalar, reflectance: Scalar, draw: Scalar) -> (r: bool)
        ensures
            r == ((Scalar { bits: ONE_BITS }).less(ratio_sine) || draw.less(reflectance)),
    {
        ratio_sine.gt(Scalar::from_bits(ONE_BITS)) || reflectance.gt(draw)
    }
}

/// A material that scatters alike in all directions.
#[derive(Clone, Copy, Debug)]
pub struct Isotropic {
    /// The texture of the albedo, as its index in the scene's textures.
    pub albedo: usize,
}

impl Isotropic {
    /// An isotropic material whose albedo is the texture with index `albedo`.
    pub fn new(albedo: usize) -> (m: Isotropic)
        ensures
            m.albedo == albedo,
    {
        Isotropic { albedo }
    }

    /// An isotropic material whose albedo is the texture with index `a`.
    pub fn new_texture(a: usize) -> (m: Isotropic)
        ensures
            m.albedo == a,
    {
        Isotropic { albedo: a }
    }

    /// The density of a scattered direction: the constant `4 * PI`.
    pub fn scattering_pdf() -> (d: Scalar)
        ensures
            d.bits == FOUR_PI_BITS,
    {
        Scalar::from_bits(FOUR_PI_BITS)
    }
}

} // verus!
