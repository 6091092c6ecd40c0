use raytracer::scalar::{Scalar, INFINITY_BITS, SIGN_BIT};

fn scalar_of(v: f64) -> Scalar {
    Scalar::from_bits(v.to_bits())
}

fn sample_values() -> Vec<f64> {
    vec![
        0.0,
        -0.0,
        1.0,
        -1.0,
        1.5,
        -1.5,
        2.0,
        0.1,
        -0.1,
        1e-300,
        -1e-300,
        1e300,
        -1e300,
        5e-324,
        -5e-324,
        f64::MIN_POSITIVE,
        -f64::MIN_POSITIVE,
        f64::MAX,
        f64::MIN,
        f64::EPSILON,
        f64::INFINITY,
        f64::NEG_INFINITY,
        f64::NAN,
        -f64::NAN,
        f64::from_bits(0x7FF0_0000_0000_0001),
        f64::from_bits(0xFFF0_0000_0000_0001),
        f64::from_bits(0x7FFF_FFFF_FFFF_FFFF),
        f64::from_bits(0xFFFF_FFFF_FFFF_FFFF),
        f64::from_bits(0x7FEF_FFFF_FFFF_FFFF),
        f64::from_bits(0x000F_FFFF_FFFF_FFFF),
        f64::from_bits(0x0010_0000_0000_0000),
    ]
}

#[test]
fn less_than_agrees_with_native_order() {
    for a in sample_values() {
        for b in sample_values() {
            assert_eq!(scalar_of(a).lt(scalar_of(b)), a < b, "{:?} < {:?}", a, b);
        }
    }
}

#[test]
fn less_or_equal_agrees_with_native_order() {
    for a in sample_values() {
        for b in sample_values() {
            assert_eq!(scalar_of(a).le(scalar_of(b)), a <= b, "{:?} <= {:?}", a, b);
        }
    }
}

#[test]
fn greater_than_agrees_with_native_order() {
    for a in sample_values() {
        for b in sample_values() {
            assert_eq!(scalar_of(a).gt(scalar_of(b)), a > b, "{:?} > {:?}", a, b);
        }
    }
}

#[test]
fn greater_or_equal_agrees_with_native_order() {
    for a in sample_values() {
        for b in sample_values() {
            assert_eq!(scalar_of(a).ge(scalar_of(b)), a >= b, "{:?} >= {:?}", a, b);
        }
    }
}

#[test]
fn value_equality_agrees_with_native_equality() {
    for a in sample_values() {
        for b in sample_values() {
            assert_eq!(scalar_of(a).eq_value(scalar_of(b)), a == b, "{:?} == {:?}", a, b);
        }
    }
}

#[test]
fn is_nan_agrees_with_native_test() {
    for a in sample_values() {
        assert_eq!(scalar_of(a).is_nan(), a.is_nan(), "{:?}", a);
    }
}

#[test]
fn zeros_are_equal_but_differ_in_bits() {
    let plus = scalar_of(0.0);
    let minus = scalar_of(-0.0);
    assert!(plus.eq_value(minus));
    assert!(!plus.lt(minus));
    assert!(!minus.lt(plus));
    assert!(plus.le(minus));
    assert!(minus.le(plus));
    assert_ne!(plus, minus);
    assert_ne!(plus.to_bits(), minus.to_bits());
}

#[test]
fn nan_compares_false_with_itself() {
    let nan = scalar_of(f64::NAN);
    assert!(nan.is_nan());
    assert!(!nan.lt(nan));
    assert!(!nan.le(nan));
    assert!(!nan.gt(nan));
    assert!(!nan.ge(nan));
    assert!(!nan.eq_value(nan));
    assert_eq!(nan, nan);
}

#[test]
fn zero_is_positive_zero() {
    assert_eq!(Scalar::zero().to_bits(), 0);
    assert_eq!(Scalar::zero().to_bits(), 0.0f64.to_bits());
    assert_eq!(Scalar::zero(), Scalar { bits: 0 });
}

#[test]
fn bits_round_trip() {
    for a in sample_values() {
        assert_eq!(Scalar::from_bits(a.to_bits()).to_bits(), a.to_bits());
    }
    assert_eq!(Scalar::from_bits(0x3FF0_0000_0000_0000).to_bits(), 1.0f64.to_bits());
    assert_eq!(Scalar::from_bits(42).bits, 42);
}

#[test]
fn constants_are_the_sign_and_infinity_patterns() {
    assert_eq!(SIGN_BIT, (-0.0f64).to_bits());
    assert_eq!(INFINITY_BITS, f64::INFINITY.to_bits());
    assert_eq!(SIGN_BIT | INFINITY_BITS, f64::NEG_INFINITY.to_bits());
}

#[test]
fn infinities_bound_every_number() {
    let top = scalar_of(f64::INFINITY);
    let bottom = scalar_of(f64::NEG_INFINITY);
    for a in sample_values() {
        if !a.is_nan() {
            assert!(scalar_of(a).le(top));
            assert!(bottom.le(scalar_of(a)));
        }
    }
    assert!(scalar_of(f64::MAX).lt(top));
    assert!(bottom.lt(scalar_of(f64::MIN)));
}

#[test]
fn comparisons_agree_with_native_order_on_scattered_patterns() {
    let mut state: u64 = 0x9E37_79B9_7F4A_7C15;
    let mut next = move || {
        state ^= state << 13;
        state ^= state >> 7;
        state ^= state << 17;
        state
    };
    for _ in 0..20000 {
        let (x, y) = (next(), next());
        let (a, b) = (f64::from_bits(x), f64::from_bits(y));
        let (p, q) = (Scalar::from_bits(x), Scalar::from_bits(y));
        assert_eq!(p.lt(q), a < b, "{:#x} < {:#x}", x, y);
        assert_eq!(p.le(q), a <= b, "{:#x} <= {:#x}", x, y);
        assert_eq!(p.gt(q), a > b, "{:#x} > {:#x}", x, y);
        assert_eq!(p.ge(q), a >= b, "{:#x} >= {:#x}", x, y);
        assert_eq!(p.eq_value(q), a == b, "{:#x} == {:#x}", x, y);
        assert_eq!(p.eq_value(p), a == a, "{:#x}", x);
        assert_eq!(p.is_nan(), a.is_nan(), "{:#x}", x);
    }
}

#[test]
fn comparisons_agree_with_native_order_near_the_special_patterns() {
    let anchors: [u64; 6] = [
        0x0000_0000_0000_0000,
        0x8000_0000_0000_0000,
        0x7FF0_0000_0000_0000,
        0xFFF0_0000_0000_0000,
        0x3FF0_0000_0000_0000,
        0xBFF0_0000_0000_0000,
    ];
    let mut patterns: Vec<u64> = Vec::new();
    for anchor in anchors {
        for step in 0..3u64 {
            patterns.push(anchor.wrapping_add(step));
            patterns.push(anchor.wrapping_sub(step));
        }
    }
    for x in &patterns {
        for y in &patterns {
            let (a, b) = (f64::from_bits(*x), f64::from_bits(*y));
            let (p, q) = (Scalar::from_bits(*x), Scalar::from_bits(*y));
            assert_eq!(p.lt(q), a < b, "{:#x} < {:#x}", x, y);
            assert_eq!(p.le(q), a <= b, "{:#x} <= {:#x}", x, y);
            assert_eq!(p.gt(q), a > b, "{:#x} > {:#x}", x, y);
            assert_eq!(p.ge(q), a >= b, "{:#x} >= {:#x}", x, y);
            assert_eq!(p.eq_value(q), a == b, "{:#x} == {:#x}", x, y);
        }
    }
}
