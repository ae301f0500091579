//! Sampling densities: what they decide without arithmetic.
use vstd::prelude::*;
use crate::onb::Onb;
use crate::scalar::{Scalar, HALF_BITS};
use crate::vec3::Point3;

verus! {

/// The bit pattern of `1 / (4 * PI)`.
pub const INV_FOUR_PI_BITS: u64 = 0x3fb4_5f30_6dc9_c883;

/// The uniform density on the sphere.
#[derive(Clone, Copy, Debug)]
pub struct SpherePdf;

impl SpherePdf {
    /// The density of any direction: `1 / (4 * PI)`.
    pub fn value(&self) -> (d: Scalar)
        ensures
            d.bits == INV_FOUR_PI_BITS,
    {
        Scalar::from_bits(INV_FOUR_PI_BITS)
    }
}

/// Which of the two densities of a mixture supplies the sample.
#[derive(Clone, Copy, Debug, PartialEq, Eq, Structural)]
pub enum Part {
    First,
    Second,
}

/// The cosine-weighted density on the hemisphere around `uvw.w()`.
#[derive(Clone, Copy, Debug)]
pub struct CosinePdf {
    pub uvw: Onb,
}

/// The density of the directions from `origin` towards an object of the
/// scene, given by its index.
#[derive(Clone, Copy, Debug)]
pub struct HittablePdf {
    pub objects: usize,
    pub origin: Point3,
}

impl CosinePdf {
    /// The density around the third vector of a basis.
    pub fn new(uvw: Onb) -> (pdf: CosinePdf)
        ensures
            pdf.uvw == uvw,
    {
        CosinePdf { uvw }
    }

    /// The density of a direction: `cos_over_pi`, the cosine of its angle to
    /// the normal divided by PI, or zero where that is negative or a NaN.
    pub fn value(cos_over_pi: Scalar) -> (d: Scalar)
        ensures
            d == (Scalar { bits: 0 }).max_of(cos_over_pi),
            !d.nan(),
            (Scalar { bits: 0 }).at_most(d),
    {
        Scalar::zero().max(cos_over_pi)
    }
}

/// An even mixture of two densities.
#[derive(Clone, Copy, Debug)]
pub struct MixturePdf;

impl MixturePdf {
    /// Which density supplies the sample, from a uniform `draw` in `[0, 1)`:
    /// the first where the draw is below one half, else the second.
    pub fn generate(draw: Scalar) -> (part: Part)
        ensures
            part == if draw.less(Scalar { bits: HALF_BITS }) {
                Part::First
            } else {
                Part::Second
            },
    {
        if draw.lt(Scalar::from_bits(HALF_BITS)) {
            Part::First
        } else {
            Part::Second
        }
    }
}

} // verus!
