//! The tracer's choices: which surface a ray meets first, which lights reach
//! a surface point, and how many mirror bounces are left.
//!
//! The geometry itself (where a ray meets a shape, how far a light is) is
//! computed by the caller and handed over as [`Scalar`]s.

use vstd::prelude::*;
use crate::scalar::Scalar;

verus! {

/// Why a trace was refused.
#[derive(Clone, Copy, Debug, PartialEq, Eq, Structural)]
pub enum TraceError {
    /// The number of reflection bounces asked for was below zero.
    NegativeDepth,
}

/// The ray tracer. It keeps no state between rays.
#[derive(Clone, Copy, Debug, PartialEq, Eq, Structural)]
pub struct Tracer {}

/// Whether some hit strictly between places `from` and `to` lies at an
/// undefined distance.
pub open spec fn undefined_between(hits: Seq<Option<Scalar>>, from: int, to: int) -> bool {
    exists|k: int| from < k < to && (#[trigger] hits[k]) is Some && hits[k].unwrap().undefined()
}

/// Whether the shape at place `i` is the one that a scan of the first `n`
/// entries of `hits` settles on.
///
/// Each entry is the distance at which the ray meets one shape, or `None`
/// where it misses. The scan keeps the first of the nearest hits:
/// no later hit may be nearer, and every earlier hit must be farther.
/// A hit at an undefined distance displaces whatever was kept before it and
/// yields to whatever hit comes after it, so an earlier hit is also left
/// behind where such a hit stands between it and `i`.
pub open spec fn is_closest(hits: Seq<Option<Scalar>>, n: int, i: int) -> bool {
    &&& 0 <= i < n <= hits.len()
    &&& hits[i] is Some
    &&& forall|j: int|
        i < j < n && (#[trigger] hits[j]) is Some ==> hits[j].unwrap().greater_eq(hits[i].unwrap())
    &&& forall|j: int|
        0 <= j < i && (#[trigger] hits[j]) is Some ==> {
            ||| !hits[i].unwrap().greater_eq(hits[j].unwrap())
            ||| undefined_between(hits, j, i)
        }
}

/// At most one place is the closest: `is_closest` names the scan's result.
pub proof fn lemma_closest_is_unique(hits: Seq<Option<Scalar>>, n: int, i: int, j: int)
    requires
        is_closest(hits, n, i),
        is_closest(hits, n, j),
    ensures
        i == j,
{
    lemma_closest_not_before(hits, n, i, j);
    lemma_closest_not_before(hits, n, j, i);
}

/// Of two closest places, the first named does not come before the second.
proof fn lemma_closest_not_before(hits: Seq<Option<Scalar>>, n: int, i: int, j: int)
    requires
        is_closest(hits, n, i),
        is_closest(hits, n, j),
    ensures
        i >= j,
{
    if i < j {
        assert(hits[j].unwrap().greater_eq(hits[i].unwrap()));
        if undefined_between(hits, i, j) {
            let k = choose|k: int|
                i < k < j && (#[trigger] hits[k]) is Some && hits[k].unwrap().undefined();
            assert(hits[k].unwrap().greater_eq(hits[i].unwrap()));
        }
    }
}

/// Where no distance is undefined, the closest hit is the first of the
/// smallest: nothing is nearer, and nothing before it is as near.
pub proof fn lemma_closest_is_first_minimum(hits: Seq<Option<Scalar>>, i: int)
    requires
        forall|k: int| 0 <= k < hits.len() && (#[trigger] hits[k]) is Some ==> !hits[k].unwrap().undefined(),
    ensures
        is_closest(hits, hits.len() as int, i) <==> {
            &&& 0 <= i < hits.len()
            &&& hits[i] is Some
            &&& forall|j: int|
                0 <= j < hits.len() && (#[trigger] hits[j]) is Some ==> hits[i].unwrap().rank()
                    <= hits[j].unwrap().rank()
            &&& forall|j: int|
                0 <= j < i && (#[trigger] hits[j]) is Some ==> hits[i].unwrap().rank()
                    < hits[j].unwrap().rank()
        },
{
    let n = hits.len() as int;
    let first_minimum = {
        &&& 0 <= i < hits.len()
        &&& hits[i] is Some
        &&& forall|j: int|
            0 <= j < hits.len() && (#[trigger] hits[j]) is Some ==> hits[i].unwrap().rank()
                <= hits[j].unwrap().rank()
        &&& forall|j: int|
            0 <= j < i && (#[trigger] hits[j]) is Some ==> hits[i].unwrap().rank()
                < hits[j].unwrap().rank()
    };
    if is_closest(hits, n, i) {
        assert forall|j: int| 0 <= j < i && (#[trigger] hits[j]) is Some implies hits[i].unwrap().rank()
            < hits[j].unwrap().rank() by {
            if undefined_between(hits, j, i) {
                let k = choose|k: int|
                    j < k < i && (#[trigger] hits[k]) is Some && hits[k].unwrap().undefined();
                assert(false);
            }
        }
        assert(first_minimum);
    }
    if first_minimum {
        assert(is_closest(hits, n, i));
    }
}

/// Whether a light at the squared distance `light_sq` is hidden by the
/// nearest thing on the way to it. `shadow_sq` is the squared distance of that
/// thing, `None` where nothing is on the way.
pub open spec fn hides(shadow_sq: Option<Scalar>, light_sq: Scalar) -> bool {
    shadow_sq matches Some(s) && s.less(light_sq)
}

/// The budget of the ray that mirrors a ray of the given budget, `None`
/// where that ray is not mirrored.
pub open spec fn bounce(depth_budget: u32) -> Option<u32> {
    if depth_budget == 0 {
        None
    } else {
        Some((depth_budget - 1) as u32)
    }
}

/// The number of rays in the longest chain of a ray and its mirror images
/// that a budget allows: the ray itself, and one more for each bounce.
pub open spec fn rays_followed(depth_budget: u32) -> nat
    decreases depth_budget,
{
    match bounce(depth_budget) {
        None => 1,
        Some(rest) => 1 + rays_followed(rest),
    }
}

/// A trace ends: along the mirrored rays, a budget allows one search for the
/// nearest hit per bounce, and one for the first ray.
pub proof fn lemma_rays_within_budget(depth_budget: u32)
    ensures
        rays_followed(depth_budget) == depth_budget + 1,
    decreases depth_budget,
{
    if depth_budget > 0 {
        lemma_rays_within_budget((depth_budget - 1) as u32);
    }
}

/// A light is hidden as soon as the shadow ray meets any shape before it,
/// though only the nearest hit is looked at.
///
/// The hits are those of the shadow ray, none of them undefined or negative.
/// The host squares a distance before it compares; `square` stands for that,
/// and all that is asked of it is that it keeps the order of distances that
/// are not negative.
pub proof fn lemma_any_hit_before_the_light_hides_it(
    hits: Seq<Option<Scalar>>,
    square: spec_fn(Scalar) -> Scalar,
    light_sq: Scalar,
    closest: int,
    any: int,
)
    requires
        forall|k: int|
            0 <= k < hits.len() && (#[trigger] hits[k]) is Some ==> !hits[k].unwrap().undefined()
                && !hits[k].unwrap().less(Scalar::zero()),
        forall|a: Scalar, b: Scalar|
            !a.less(Scalar::zero()) && a.less_eq(b) ==> (#[trigger] square(a)).less_eq(
                #[trigger] square(b),
            ),
        is_closest(hits, hits.len() as int, closest),
        0 <= any < hits.len(),
        hits[any] is Some,
        square(hits[any].unwrap()).less(light_sq),
    ensures
        hides(Some(square(hits[closest].unwrap())), light_sq),
{
    lemma_closest_is_first_minimum(hits, closest);
    let near = hits[closest].unwrap();
    let other = hits[any].unwrap();
    assert(near.less_eq(other));
    assert(square(near).less_eq(square(other)));
}

impl Tracer {
    /// A tracer.
    pub fn new() -> (r: Tracer)
        ensures
            r == (Tracer {}),
    {
        Tracer {}
    }

    /// The nearest of the hits of one ray, with its place in `hits`.
    ///
    /// `hits` holds, shape by shape in scene order, the distance at which the
    /// ray meets the shape, or `None` where it misses. The result is `None`
    /// exactly when every shape is missed. Otherwise it is the first of the
    /// nearest hits, as [`is_closest`] says in full.
    pub fn closest_intersect(hits: &Vec<Option<Scalar>>) -> (r: Option<(usize, Scalar)>)
        ensures
            r is None <==> forall|i: int| 0 <= i < hits.len() ==> (#[trigger] hits[i]) is None,
            r matches Some((i, t)) ==> is_closest(hits@, hits.len() as int, i as int) && hits[i as int]
                == Some(t),
    {
        let mut closest: Option<(usize, Scalar)> = None;
        let n: usize = hits.len();
        let mut k: usize = 0;
        while k < n
            invariant
                n == hits.len(),
                k <= n,
                closest is None <==> forall|i: int| 0 <= i < k ==> (#[trigger] hits[i]) is None,
                closest matches Some((i, t)) ==> is_closest(hits@, k as int, i as int) && hits[i as int]
                    == Some(t),
            decreases n - k,
        {
            match hits[k] {
                None => {},
                Some(t) => {
                    let keep: bool = match closest {
                        Some((_, x)) => t.ge(x),
                        None => false,
                    };
                    if !keep {
                        proof {
                            lemma_displace(hits@, k as int, closest);
                        }
                        closest = Some((k, t));
                    }
                },
            }
            k = k + 1;
        }
        closest
    }

    /// Whether a light can shine on a surface at all.
    ///
    /// `incidence` is the cosine between the surface normal and the direction
    /// towards the light. A light at or behind the surface's own horizon
    /// (`incidence <= 0`) gives nothing.
    pub fn faces_light(incidence: Scalar) -> (r: bool)
        ensures
            r == !incidence.less_eq(Scalar::zero()),
    {
        !incidence.le(Scalar::zero())
    }

    /// Whether something stands between a surface point and a light.
    ///
    /// `shadow_sq` is the squared distance of the nearest hit of the ray cast
    /// from the point towards the light, `None` where that ray hits nothing;
    /// `light_sq` is the squared distance of the light. The light is hidden
    /// exactly when there is a hit strictly nearer than the light. An occluded
    /// light adds nothing to the colour of the point.
    pub fn occluded(shadow_sq: Option<Scalar>, light_sq: Scalar) -> (r: bool)
        ensures
            r == hides(shadow_sq, light_sq),
    {
        match shadow_sq {
            Some(s) => s.lt(light_sq),
            None => false,
        }
    }

    /// The number of mirror bounces that a trace may follow, from the number
    /// that a caller asks for. A negative number is refused.
    pub fn depth_budget(refl_idx: i32) -> (r: Result<u32, TraceError>)
        ensures
            r is Err <==> refl_idx < 0,
            r matches Err(e) ==> e == TraceError::NegativeDepth,
            r matches Ok(budget) ==> budget == refl_idx,
    {
        if refl_idx < 0 {
            Err(TraceError::NegativeDepth)
        } else {
            Ok(refl_idx as u32)
        }
    }

    /// The budget of the reflected ray, or `None` where the ray at hand may
    /// not be followed further. With a budget of 0 no reflected ray is ever
    /// cast; otherwise the reflected ray has one bounce less.
    pub fn next_bounce(depth_budget: u32) -> (r: Option<u32>)
        ensures
            r == bounce(depth_budget),
            depth_budget == 0 <==> r is None,
    {
        if depth_budget > 0 {
            Some(depth_budget - 1)
        } else {
            None
        }
    }
}

/// A hit at place `k` that is not at or beyond the kept one takes its place.
proof fn lemma_displace(hits: Seq<Option<Scalar>>, k: int, kept: Option<(usize, Scalar)>)
    requires
        0 <= k < hits.len(),
        hits[k] is Some,
        kept is None ==> forall|i: int| 0 <= i < k ==> (#[trigger] hits[i]) is None,
        kept matches Some((b, x)) ==> {
            &&& is_closest(hits, k, b as int)
            &&& hits[b as int] == Some(x)
            &&& !hits[k].unwrap().greater_eq(x)
        },
    ensures
        is_closest(hits, k + 1, k),
{
    let t = hits[k].unwrap();
    match kept {
        None => {},
        Some((b, x)) => {
            let b = b as int;
            assert forall|j: int| 0 <= j < k && (#[trigger] hits[j]) is Some implies {
                ||| !t.greater_eq(hits[j].unwrap())
                ||| undefined_between(hits, j, k)
            } by {
                let u = hits[j].unwrap();
                if j > b {
                    assert(u.greater_eq(x));
                } else if j < b {
                    if undefined_between(hits, j, b) {
                        let m = choose|m: int|
                            j < m < b && (#[trigger] hits[m]) is Some && hits[m].unwrap().undefined();
                        assert(j < m < k && hits[m] is Some && hits[m].unwrap().undefined());
                    } else if x.undefined() {
                        assert(j < b < k && hits[b] is Some && hits[b].unwrap().undefined());
                    }
                }
            }
        },
    }
}

} // verus!
