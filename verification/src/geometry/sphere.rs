//! The hit rule of a sphere.

use vstd::prelude::*;
use crate::scalar::Scalar;

verus! {

/// Whether and where a ray hits a sphere, from the two numbers that settle it.
///
/// For a ray from `o` along `d` and a sphere of centre `c` and radius `r`, let
/// `v = o - c` and `b = v . d`. Then `discriminant` is `b * b - (|v|^2 - r * r)`
/// and `near_root` is `-b - sqrt(discriminant)`, the nearer of the two places
/// where the line of the ray pierces the sphere.
///
/// The ray misses when the discriminant is negative (the line passes by) or
/// the near root is negative (the sphere lies behind the origin, or around
/// it: the far side is never reported). Otherwise it hits at the near root.
pub fn intersect(discriminant: Scalar, near_root: Scalar) -> (r: Option<Scalar>)
    ensures
        r == if discriminant.less(Scalar::zero()) || near_root.less(Scalar::zero()) {
            None
        } else {
            Some(near_root)
        },
        r matches Some(t) ==> !t.less(Scalar::zero()),
{
    if discriminant.lt(Scalar::zero()) {
        return None;
    }
    if near_root.lt(Scalar::zero()) {
        return None;
    }
    Some(near_root)
}

} // verus!
