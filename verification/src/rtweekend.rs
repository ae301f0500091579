//! Small utilities shared by the rest of the crate: clamping and random
//! integers.
use vstd::prelude::*;
use rand::Rng;
use crate::scalar::Scalar;

verus! {

/// `x` held to `[min, max]`: `min` where `x` is below it, `max` where `x` is
/// above it, and `x` itself otherwise, a NaN included.
pub open spec fn clamped(x: Scalar, min: Scalar, max: Scalar) -> Scalar {
    if x.less(min) {
        min
    } else if max.less(x) {
        max
    } else {
        x
    }
}

/// Holds `x` to the range `[min, max]`.
pub fn clamp(x: Scalar, min: Scalar, max: Scalar) -> (r: Scalar)
    ensures
        r == clamped(x, min, max),
{
    if x.lt(min) {
        return min;
    }
    if x.gt(max) {
        return max;
    }
    x
}

/// What comes out of `clamp` lies in the range, for numbers with `min <= max`.
pub proof fn lemma_clamped_between(x: Scalar, min: Scalar, max: Scalar)
    requires
        !x.nan(),
        min.at_most(max),
    ensures
        clamped(x, min, max).between(min, max),
        x.between(min, max) ==> clamped(x, min, max) == x,
{
}

/// A random integer below `n`, drawn by `rand::Rng::gen_range(0..n)` on the
/// thread's generator.
///
/// Trusted: that the value drawn lies in the range asked for, as the method
/// documents. The method panics on an empty range, which `n > 0` excludes.
/// Nothing is claimed of which value comes.
#[verifier::external_body]
pub(crate) fn random_below(n: usize) -> (r: usize)
    requires
        n > 0,
    ensures
        r < n,
{
    rand::thread_rng().gen_range(0..n)
}

} // verus!
