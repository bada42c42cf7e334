use sapphire::number::{
    number_equal, number_is_nan, number_less, number_less_equal, number_negate, INFINITY, SIGN_BIT,
};

fn samples() -> Vec<f64> {
    vec![
        0.0,
        -0.0,
        1.0,
        -1.0,
        0.5,
        -0.5,
        2.0,
        1e300,
        -1e300,
        5e-324,
        -5e-324,
        f64::MIN_POSITIVE,
        f64::MAX,
        f64::MIN,
        f64::INFINITY,
        f64::NEG_INFINITY,
        f64::NAN,
        -f64::NAN,
        f64::from_bits(0x7ff0_0000_0000_0001),
        f64::from_bits(0xffff_ffff_ffff_ffff),
        1.0000000000000002,
        0.1 + 0.2,
        0.3,
    ]
}

#[test]
fn less_agrees_with_floating_point() {
    for a in samples() {
        for b in samples() {
            assert_eq!(number_less(a.to_bits(), b.to_bits()), a < b, "{} < {}", a, b);
        }
    }
}

#[test]
fn less_equal_agrees_with_floating_point() {
    for a in samples() {
        for b in samples() {
            assert_eq!(number_less_equal(a.to_bits(), b.to_bits()), a <= b, "{} <= {}", a, b);
        }
    }
}

#[test]
fn equal_agrees_with_floating_point() {
    for a in samples() {
        for b in samples() {
            assert_eq!(number_equal(a.to_bits(), b.to_bits()), a == b, "{} == {}", a, b);
        }
    }
}

#[test]
fn negate_agrees_with_floating_point() {
    for a in samples() {
        assert_eq!(number_negate(a.to_bits()), (-a).to_bits());
    }
}

#[test]
fn is_nan_agrees_with_floating_point() {
    for a in samples() {
        assert_eq!(number_is_nan(a.to_bits()), a.is_nan());
    }
}

#[test]
fn constants() {
    assert_eq!(SIGN_BIT, (-0.0f64).to_bits());
    assert_eq!(INFINITY, f64::INFINITY.to_bits());
    assert_eq!(number_less(0.0f64.to_bits(), (-0.0f64).to_bits()), false);
    assert_eq!(number_equal(0.0f64.to_bits(), (-0.0f64).to_bits()), true);
}
