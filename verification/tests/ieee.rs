use climsim::ieee::{
    finite32, floor_index, less64, less_equal32, positive_finite64, INFINITY64, NAN64,
};

fn table64() -> Vec<f64> {
    vec![
        0.0,
        -0.0,
        5e-324,
        -5e-324,
        2.2250738585072014e-308,
        1e-10,
        0.25,
        0.5,
        0.9999999999999999,
        1.0,
        1.5,
        2.5,
        -2.5,
        3.999,
        7.0,
        1023.75,
        4503599627370496.0,
        4503599627370497.0,
        9007199254740992.0,
        9223372036854775808.0,
        18446744073709551616.0,
        1e300,
        -1e300,
        f64::MAX,
        f64::MIN,
        f64::INFINITY,
        f64::NEG_INFINITY,
        f64::NAN,
        -f64::NAN,
    ]
}

fn table32() -> Vec<f32> {
    vec![
        0.0,
        -0.0,
        1e-45,
        -1e-45,
        0.5,
        1.0,
        -1.0,
        12.5,
        100.0,
        -100.0,
        f32::MAX,
        f32::MIN,
        f32::INFINITY,
        f32::NEG_INFINITY,
        f32::NAN,
        -f32::NAN,
    ]
}

#[test]
fn missing_marker_is_the_quiet_nan() {
    assert!(f64::from_bits(NAN64).is_nan());
    assert_eq!(NAN64, f64::NAN.to_bits());
    assert_eq!(INFINITY64, f64::INFINITY.to_bits());
}

#[test]
fn finite32_agrees_with_the_hardware() {
    for v in table32() {
        assert_eq!(finite32(v.to_bits()), v.is_finite(), "{v}");
    }
    assert!(!finite32(0x7fc0_0001));
    assert!(!finite32(0xff80_0000));
    assert!(finite32(0x7f7f_ffff));
}

#[test]
fn positive_finite64_accepts_only_finite_values_above_zero() {
    for v in table64() {
        assert_eq!(positive_finite64(v.to_bits()), v.is_finite() && v > 0.0, "{v}");
    }
}

#[test]
fn less_equal32_agrees_with_the_hardware() {
    for a in table32() {
        for b in table32() {
            assert_eq!(less_equal32(a.to_bits(), b.to_bits()), a <= b, "{a} <= {b}");
        }
    }
}

#[test]
fn less64_agrees_with_the_hardware() {
    for a in table64() {
        for b in table64() {
            assert_eq!(less64(a.to_bits(), b.to_bits()), a < b, "{a} < {b}");
        }
    }
}

#[test]
fn signed_zeros_compare_equal() {
    assert!(less_equal32((-0.0f32).to_bits(), 0.0f32.to_bits()));
    assert!(less_equal32(0.0f32.to_bits(), (-0.0f32).to_bits()));
    assert!(!less64((-0.0f64).to_bits(), 0.0f64.to_bits()));
    assert!(!less64(0.0f64.to_bits(), (-0.0f64).to_bits()));
}

#[test]
fn floor_index_agrees_with_the_hardware() {
    let limits: Vec<usize> = vec![0, 1, 2, 3, 8, 1024, 1 << 53, usize::MAX];
    for v in table64() {
        for &limit in &limits {
            let inside = v >= 0.0 && v.floor() < limit as f64 || (v == 0.0 && limit > 0);
            let expected = if inside && v.floor() < 18446744073709551616.0 {
                let whole = v.floor() as u128;
                if whole < limit as u128 {
                    Some(whole as usize)
                } else {
                    None
                }
            } else {
                None
            };
            assert_eq!(floor_index(v.to_bits(), limit), expected, "{v} below {limit}");
        }
    }
}

#[test]
fn floor_index_of_exact_values() {
    assert_eq!(floor_index(2.5f64.to_bits(), 10), Some(2));
    assert_eq!(floor_index(0.5f64.to_bits(), 1), Some(0));
    assert_eq!(floor_index(9.999f64.to_bits(), 10), Some(9));
    assert_eq!(floor_index(10.0f64.to_bits(), 10), None);
    assert_eq!(floor_index(4096.0f64.to_bits(), usize::MAX), Some(4096));
    assert_eq!(floor_index(9007199254740993.5f64.to_bits(), usize::MAX), Some(9007199254740994));
}

#[test]
fn floor_index_takes_negative_zero_for_zero() {
    assert_eq!(floor_index((-0.0f64).to_bits(), 1), Some(0));
    assert_eq!(floor_index((-0.0f64).to_bits(), 0), None);
}

#[test]
fn floor_index_has_nothing_for_what_lies_outside() {
    assert_eq!(floor_index((-0.25f64).to_bits(), 10), None);
    assert_eq!(floor_index((-5e-324f64).to_bits(), 10), None);
    assert_eq!(floor_index(f64::NAN.to_bits(), 10), None);
    assert_eq!(floor_index(f64::INFINITY.to_bits(), usize::MAX), None);
    assert_eq!(floor_index(1e300f64.to_bits(), usize::MAX), None);
    assert_eq!(floor_index(0.5f64.to_bits(), 0), None);
}

#[test]
fn floor_index_of_every_pixel_centre() {
    for k in 0..2000usize {
        let centre = k as f64 + 0.5;
        assert_eq!(floor_index(centre.to_bits(), 2000), Some(k));
    }
}
