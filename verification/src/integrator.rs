//! The decisions of the path integrator: what a ray contributes, whether its
//! path goes on, and for how long.
//!
//! The radiance along a path is a sum of emitted light, each term weighted by
//! the attenuations before it. The sums and products are the caller's; which
//! terms there are is decided here.
use vstd::prelude::*;
use crate::hittable::HitRecord;
use crate::material::ScatterRecord;
use crate::scalar::Scalar;

verus! {

/// What a ray found at its end.
#[derive(Clone, Copy, Debug, PartialEq, Eq, Structural)]
pub enum Vertex {
    /// Nothing: the ray left the scene.
    Miss,
    /// A surface whose material scatters nothing.
    Absorbed,
    /// A surface whose material fixed the scattered ray itself, as a mirror
    /// or glass does.
    Specular,
    /// A surface whose material leaves the direction to be sampled.
    Diffuse,
}

/// What a ray contributes and how its path goes on.
#[derive(Clone, Copy, Debug, PartialEq, Eq, Structural)]
pub enum Bounce {
    /// The depth is used up: the ray is not cast and contributes black.
    Exhausted,
    /// The ray contributes the background colour; the path ends.
    Background,
    /// The ray contributes what the surface emits; the path ends.
    Emitted,
    /// The ray contributes what the surface emits and, times the
    /// attenuation, what comes along the scattered ray that the material
    /// fixed.
    Specular,
    /// The ray contributes what the surface emits and, times the attenuation
    /// and the material's density and divided by the density of the
    /// sampling mixture, what comes along a ray drawn from that mixture.
    Diffuse,
}

impl Bounce {
    /// Whether the path goes on with another ray.
    pub open spec fn continues(self) -> bool {
        self == Bounce::Specular || self == Bounce::Diffuse
    }

    /// Whether the path goes on with another ray.
    pub fn goes_on(self) -> (r: bool)
        ensures
            r == self.continues(),
    {
        match self {
            Bounce::Specular => true,
            Bounce::Diffuse => true,
            _ => false,
        }
    }
}

impl Vertex {
    /// What a hit and the answer of its material amount to.
    pub open spec fn seen(rec: Option<HitRecord>, srec: Option<ScatterRecord>) -> Vertex {
        match (rec, srec) {
            (None, _) => Vertex::Miss,
            (Some(_), None) => Vertex::Absorbed,
            (Some(_), Some(s)) => if s.skip_pdf {
                Vertex::Specular
            } else {
                Vertex::Diffuse
            },
        }
    }

    /// What a ray found, from the nearest hit in the scene, if there is one,
    /// and from what the material at the hit scatters, if it scatters.
    pub fn observe(rec: &Option<HitRecord>, srec: &Option<ScatterRecord>) -> (v: Vertex)
        ensures
            v == Vertex::seen(*rec, *srec),
    {
        match rec {
            None => Vertex::Miss,
            Some(_) => match srec {
                None => Vertex::Absorbed,
                Some(s) => if s.skip_pdf {
                    Vertex::Specular
                } else {
                    Vertex::Diffuse
                },
            },
        }
    }
}

/// One step of a path: with `depth` rays left, what the ray that found
/// `vertex` contributes, and how many rays are left after it.
pub open spec fn stepped(depth: u64, vertex: Vertex) -> (Bounce, u64) {
    if depth == 0 {
        (Bounce::Exhausted, 0)
    } else {
        match vertex {
            Vertex::Miss => (Bounce::Background, depth),
            Vertex::Absorbed => (Bounce::Emitted, depth),
            Vertex::Specular => (Bounce::Specular, (depth - 1) as u64),
            Vertex::Diffuse => (Bounce::Diffuse, (depth - 1) as u64),
        }
    }
}

/// The number of rays that a path casts after its first, given what each ray
/// finds.
pub open spec fn bounces(depth: u64, vertices: Seq<Vertex>) -> nat
    decreases vertices.len(),
{
    if vertices.len() == 0 {
        0
    } else {
        let (bounce, left) = stepped(depth, vertices[0]);
        if bounce.continues() {
            1 + bounces(left, vertices.skip(1))
        } else {
            0
        }
    }
}

/// One step of the integrator.
///
/// With no depth left the ray is not cast and contributes black. A ray that
/// misses contributes the background. A ray that hits contributes what the
/// surface emits; where the material scatters, the path goes on with one ray
/// less, along the material's own ray for a specular material and along a
/// sampled one for a diffuse material.
pub fn ray_color(depth: u64, vertex: Vertex) -> (next: (Bounce, u64))
    ensures
        next == stepped(depth, vertex),
        next.0.continues() ==> next.1 < depth,
        !next.0.continues() ==> next.1 == depth,
{
    if depth == 0 {
        return (Bounce::Exhausted, 0);
    }
    match vertex {
        Vertex::Miss => (Bounce::Background, depth),
        Vertex::Absorbed => (Bounce::Emitted, depth),
        Vertex::Specular => (Bounce::Specular, depth - 1),
        Vertex::Diffuse => (Bounce::Diffuse, depth - 1),
    }
}

/// Whether a sampled direction carries light: its density under the sampling
/// mixture must be a number other than zero, as the contribution is divided
/// by it. A direction of density zero, or of a NaN, contributes nothing.
pub fn carries(pdf_value: Scalar) -> (r: bool)
    ensures
        r == (!pdf_value.nan() && pdf_value.rank() != 0),
{
    !pdf_value.is_nan() && pdf_value.key() != 0
}

/// A path ends: whatever the rays find, a path that starts with `depth` rays
/// casts at most `depth` of them after the first.
pub proof fn lemma_path_ends(depth: u64, vertices: Seq<Vertex>)
    ensures
        bounces(depth, vertices) <= depth,
    decreases vertices.len(),
{
    if vertices.len() > 0 {
        let (bounce, left) = stepped(depth, vertices[0]);
        if bounce.continues() {
            lemma_path_ends(left, vertices.skip(1));
        }
    }
}

} // verus!
