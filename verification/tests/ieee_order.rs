use numerics_interp::ieee::{greater_equal, is_nan, key, less_equal, partial_compare, FloatOrder};

fn samples() -> Vec<f64> {
    vec![
        0.0,
        -0.0,
        1.0,
        -1.0,
        0.5,
        -0.5,
        3.0,
        1e-14,
        -1e-14,
        f64::MIN_POSITIVE,
        -f64::MIN_POSITIVE,
        5e-324,
        -5e-324,
        f64::MAX,
        f64::MIN,
        f64::INFINITY,
        f64::NEG_INFINITY,
        f64::NAN,
        -f64::NAN,
        std::f64::consts::PI,
    ]
}

#[test]
fn nan_detection_matches_f64() {
    for x in samples() {
        assert_eq!(is_nan(x.to_bits()), x.is_nan(), "x={x}");
    }
    assert!(is_nan(0x7ff0_0000_0000_0001));
    assert!(!is_nan(0x7ff0_0000_0000_0000));
    assert!(is_nan(0xfff8_0000_0000_0000));
}

#[test]
fn comparisons_match_f64() {
    let xs = samples();
    for &a in &xs {
        for &b in &xs {
            let (ab, bb) = (a.to_bits(), b.to_bits());
            assert_eq!(less_equal(ab, bb), a <= b, "a={a} b={b}");
            assert_eq!(greater_equal(ab, bb), a >= b, "a={a} b={b}");
            let expected = a.partial_cmp(&b).map(|o| match o {
                std::cmp::Ordering::Less => FloatOrder::Less,
                std::cmp::Ordering::Equal => FloatOrder::Equal,
                std::cmp::Ordering::Greater => FloatOrder::Greater,
            });
            assert_eq!(partial_compare(ab, bb), expected, "a={a} b={b}");
        }
    }
}

#[test]
fn zeros_share_a_key() {
    assert_eq!(key(0.0f64.to_bits()), 0);
    assert_eq!(key((-0.0f64).to_bits()), 0);
    assert_eq!(key(1.0f64.to_bits()), 0x3ff0_0000_0000_0000);
    assert_eq!(key((-1.0f64).to_bits()), -0x3ff0_0000_0000_0000);
}
