use jsongrep::float::{close_magnitudes, less, same, to_i32};

fn samples() -> Vec<f64> {
    let e = f64::EPSILON;
    vec![
        0.0,
        -0.0,
        e,
        2.0 * e,
        e / 2.0,
        1.0,
        1.0 + e,
        1.0 + 2.0 * e,
        1.0 - e,
        1.0 - e / 2.0,
        2.0,
        2.0 - e,
        2.0 + 2.0 * e,
        0.5,
        0.5 + e,
        -5.0,
        5.0,
        1.2,
        -1.2,
        1e-300,
        -1e-300,
        1e300,
        f64::MIN_POSITIVE,
        f64::MAX,
        -f64::MAX,
        3.0e-16,
        1.0e-16,
        123456.789,
        f64::from_bits(0x3CC0_0000_0000_0000),
        f64::from_bits(0x3CAF_FFFF_FFFF_FFFF),
        f64::from_bits(0x3CAF_FFFF_FFFF_FFFE),
        f64::from_bits(0x3CC0_0000_0000_0001),
        2.0e-16,
        100.0,
        -2147483648.0,
        2147483647.0,
        2147483648.0,
        -2147483649.0,
        0.75,
    ]
}

#[test]
fn float_less_matches_doubles() {
    for a in samples() {
        for b in samples() {
            assert_eq!(a < b, less(a.to_bits(), b.to_bits()), "{} < {}", a, b);
            assert_eq!(a == b, same(a.to_bits(), b.to_bits()), "{} == {}", a, b);
        }
    }
}

#[test]
fn float_closeness_matches_doubles() {
    for a in samples() {
        for b in samples() {
            let want = (a.abs() - b.abs()).abs() <= f64::EPSILON;
            assert_eq!(want, close_magnitudes(a.to_bits(), b.to_bits()), "{} ~ {}", a, b);
        }
    }
}

#[test]
fn float_closeness_of_non_finite() {
    let inf = f64::INFINITY.to_bits();
    let nan = f64::NAN.to_bits();
    assert!(!close_magnitudes(inf, inf));
    assert!(!close_magnitudes(nan, nan));
    assert!(!close_magnitudes(inf, 1.0f64.to_bits()));
}

#[test]
fn float_closeness_rounds_a_tie_to_epsilon() {
    // the exact difference is 2^-52 + 2^-105; f64 subtraction rounds the tie
    // to 2^-52
    assert!(close_magnitudes(0x3CC0_0000_0000_0000, 0x3CAF_FFFF_FFFF_FFFF));
    assert!(!close_magnitudes(0x3CC0_0000_0000_0001, 0x3CAF_FFFF_FFFF_FFFF));
}

#[test]
fn float_to_i32_matches_doubles() {
    for a in samples() {
        let want = if a.fract() == 0.0 && a >= i32::MIN as f64 && a <= i32::MAX as f64 {
            Some(a as i32)
        } else {
            None
        };
        assert_eq!(want, to_i32(a.to_bits()), "{}", a);
    }
}
