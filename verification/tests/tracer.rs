use raytracer::scalar::Scalar;
use raytracer::tracer::{TraceError, Tracer};

fn dist(v: f64) -> Scalar {
    Scalar::from_bits(v.to_bits())
}

fn hits_of(ts: &[Option<f64>]) -> Vec<Option<Scalar>> {
    ts.iter().map(|t| t.map(dist)).collect()
}

fn closest(ts: &[Option<f64>]) -> Option<(usize, f64)> {
    Tracer::closest_intersect(&hits_of(ts)).map(|(i, t)| (i, f64::from_bits(t.to_bits())))
}

/// The scan as a plain loop over native numbers.
fn closest_by_native_scan(ts: &[Option<f64>]) -> Option<(usize, u64)> {
    let mut kept: Option<(usize, f64)> = None;
    for (i, t) in ts.iter().enumerate() {
        if let Some(t) = *t {
            if let Some((_, x)) = kept {
                if t >= x {
                    continue;
                }
            }
            kept = Some((i, t));
        }
    }
    kept.map(|(i, t)| (i, t.to_bits()))
}

#[test]
fn tracer_is_made() {
    assert_eq!(Tracer::new(), Tracer {});
}

#[test]
fn closest_of_no_shapes_is_none() {
    assert_eq!(closest(&[]), None);
}

#[test]
fn closest_of_misses_is_none() {
    assert_eq!(closest(&[None]), None);
    assert_eq!(closest(&[None, None, None]), None);
}

#[test]
fn closest_of_one_hit_is_that_hit() {
    assert_eq!(closest(&[Some(2.5)]), Some((0, 2.5)));
    assert_eq!(closest(&[None, Some(2.5), None]), Some((1, 2.5)));
    assert_eq!(closest(&[None, None, Some(0.0)]), Some((2, 0.0)));
}

#[test]
fn closest_is_the_smallest_distance() {
    assert_eq!(closest(&[Some(3.0), Some(1.0), Some(2.0)]), Some((1, 1.0)));
    assert_eq!(closest(&[Some(1.0), Some(2.0), Some(3.0)]), Some((0, 1.0)));
    assert_eq!(closest(&[Some(3.0), Some(2.0), Some(1.0)]), Some((2, 1.0)));
    assert_eq!(closest(&[Some(3.0), None, Some(0.5), None, Some(7.0)]), Some((2, 0.5)));
    assert_eq!(closest(&[Some(f64::INFINITY), Some(1e300)]), Some((1, 1e300)));
}

#[test]
fn closest_of_equal_distances_is_the_first() {
    assert_eq!(closest(&[Some(2.0), Some(2.0)]), Some((0, 2.0)));
    assert_eq!(closest(&[Some(5.0), Some(2.0), None, Some(2.0), Some(2.0)]), Some((1, 2.0)));
    assert_eq!(closest(&[None, Some(0.0), Some(0.0)]), Some((1, 0.0)));
}

#[test]
fn closest_counts_the_two_zeros_as_equal() {
    let r = Tracer::closest_intersect(&hits_of(&[Some(0.0), Some(-0.0)]));
    assert_eq!(r, Some((0, dist(0.0))));
    let r = Tracer::closest_intersect(&hits_of(&[Some(-0.0), Some(0.0)]));
    assert_eq!(r, Some((0, dist(-0.0))));
}

#[test]
fn closest_with_an_undefined_distance() {
    let nan = f64::NAN;
    // An undefined distance takes the place of what was kept.
    let r = Tracer::closest_intersect(&hits_of(&[Some(1.0), Some(nan)]));
    assert_eq!(r, Some((1, dist(nan))));
    // Any later hit takes the place of an undefined distance.
    assert_eq!(closest(&[Some(nan), Some(5.0)]), Some((1, 5.0)));
    assert_eq!(closest(&[Some(1.0), Some(nan), Some(5.0)]), Some((2, 5.0)));
    assert_eq!(closest(&[Some(1.0), Some(nan), Some(5.0), Some(3.0), Some(4.0)]), Some((3, 3.0)));
    assert_eq!(closest(&[Some(1.0), Some(nan), None]).map(|(i, _)| i), Some(1));
}

#[test]
fn closest_agrees_with_a_native_scan() {
    let pool = [
        None,
        Some(0.0),
        Some(-0.0),
        Some(1.0),
        Some(1.0),
        Some(2.5),
        Some(0.25),
        Some(f64::INFINITY),
        Some(f64::NAN),
        Some(7e-300),
    ];
    let mut state: u64 = 0x2545_F491_4F6C_DD1D;
    for round in 0..2000 {
        let len = round % 7;
        let mut ts: Vec<Option<f64>> = Vec::new();
        for _ in 0..len {
            state ^= state << 13;
            state ^= state >> 7;
            state ^= state << 17;
            ts.push(pool[(state % pool.len() as u64) as usize]);
        }
        let got = Tracer::closest_intersect(&hits_of(&ts)).map(|(i, t)| (i, t.to_bits()));
        assert_eq!(got, closest_by_native_scan(&ts), "{:?}", ts);
    }
}

#[test]
fn light_in_front_of_the_surface_is_faced() {
    assert!(Tracer::faces_light(dist(1.0)));
    assert!(Tracer::faces_light(dist(1e-300)));
    assert!(Tracer::faces_light(dist(5e-324)));
}

#[test]
fn light_behind_or_level_with_the_surface_is_not_faced() {
    assert!(!Tracer::faces_light(dist(0.0)));
    assert!(!Tracer::faces_light(dist(-0.0)));
    assert!(!Tracer::faces_light(dist(-1e-300)));
    assert!(!Tracer::faces_light(dist(-1.0)));
}

#[test]
fn light_at_an_undefined_angle_is_faced() {
    assert!(Tracer::faces_light(dist(f64::NAN)));
}

#[test]
fn shadow_ray_that_hits_nothing_leaves_the_light() {
    assert!(!Tracer::occluded(None, dist(4.0)));
}

#[test]
fn hit_before_the_light_hides_it() {
    assert!(Tracer::occluded(Some(dist(3.999)), dist(4.0)));
    assert!(Tracer::occluded(Some(dist(0.0)), dist(4.0)));
}

#[test]
fn hit_at_or_beyond_the_light_leaves_it() {
    assert!(!Tracer::occluded(Some(dist(4.0)), dist(4.0)));
    assert!(!Tracer::occluded(Some(dist(4.001)), dist(4.0)));
    assert!(!Tracer::occluded(Some(dist(f64::INFINITY)), dist(4.0)));
    assert!(!Tracer::occluded(Some(dist(f64::NAN)), dist(4.0)));
    assert!(!Tracer::occluded(Some(dist(1.0)), dist(f64::NAN)));
}

#[test]
fn occlusion_of_a_point_below_a_sphere() {
    // A point at the origin, a light at (0, 4, 0), and a shape met by the
    // shadow ray at distance 1.5: the hit lies before the light.
    let to_light = (0.0f64, 4.0f64, 0.0f64);
    let light_sq = to_light.0 * to_light.0 + to_light.1 * to_light.1 + to_light.2 * to_light.2;
    let shadow = Tracer::closest_intersect(&hits_of(&[None, Some(1.5), Some(9.0)]));
    let shadow_sq = shadow.map(|(_, t)| dist(f64::from_bits(t.to_bits()).powi(2)));
    assert!(Tracer::occluded(shadow_sq, dist(light_sq)));
    // The same light with the only shape beyond it.
    let shadow = Tracer::closest_intersect(&hits_of(&[None, None, Some(9.0)]));
    let shadow_sq = shadow.map(|(_, t)| dist(f64::from_bits(t.to_bits()).powi(2)));
    assert!(!Tracer::occluded(shadow_sq, dist(light_sq)));
}

#[test]
fn negative_depth_is_refused() {
    assert_eq!(Tracer::depth_budget(-1), Err(TraceError::NegativeDepth));
    assert_eq!(Tracer::depth_budget(i32::MIN), Err(TraceError::NegativeDepth));
}

#[test]
fn depth_error_is_the_only_error() {
    for refl_idx in [-1, -2, -1000, i32::MIN] {
        match Tracer::depth_budget(refl_idx) {
            Err(TraceError::NegativeDepth) => {}
            Ok(budget) => panic!("{} was taken as {}", refl_idx, budget),
        }
    }
}

#[test]
fn depth_that_is_not_negative_is_taken() {
    assert_eq!(Tracer::depth_budget(0), Ok(0));
    assert_eq!(Tracer::depth_budget(1), Ok(1));
    assert_eq!(Tracer::depth_budget(5), Ok(5));
    assert_eq!(Tracer::depth_budget(i32::MAX), Ok(2147483647));
}

#[test]
fn no_bounce_without_budget() {
    assert_eq!(Tracer::next_bounce(0), None);
}

#[test]
fn each_bounce_costs_one() {
    assert_eq!(Tracer::next_bounce(1), Some(0));
    assert_eq!(Tracer::next_bounce(2), Some(1));
    assert_eq!(Tracer::next_bounce(u32::MAX), Some(u32::MAX - 1));
}

#[test]
fn bounces_end_after_the_budget() {
    let mut budget = Tracer::depth_budget(4).unwrap();
    let mut searches = 1;
    while let Some(rest) = Tracer::next_bounce(budget) {
        budget = rest;
        searches += 1;
    }
    assert_eq!(searches, 5);
}
