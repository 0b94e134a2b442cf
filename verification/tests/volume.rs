use ticker_filter::Volume;

fn volume(x: f64) -> Volume {
    Volume::from_bits(x.to_bits())
}

fn samples() -> Vec<f64> {
    vec![
        f64::NEG_INFINITY,
        f64::MIN,
        -5000000.0,
        -1000.0,
        -1.5,
        -1.0,
        -f64::MIN_POSITIVE,
        -5e-324,
        -0.0,
        0.0,
        5e-324,
        1e-310,
        f64::MIN_POSITIVE,
        0.1,
        0.5,
        1.0,
        1.0000000000000002,
        1.5,
        2.0,
        50.0,
        100.0,
        999.0,
        999.9999999999999,
        1000.0,
        1000.0000000000001,
        5000000.0,
        9999999.0,
        1e300,
        f64::MAX,
        f64::INFINITY,
        f64::NAN,
        -f64::NAN,
    ]
}

#[test]
fn bits_round_trip() {
    assert_eq!(Volume::from_bits(0x408f_4000_0000_0000).to_bits(), 0x408f_4000_0000_0000);
    assert_eq!(volume(1000.0).to_bits(), 0x408f_4000_0000_0000);
    assert_eq!(f64::from_bits(volume(2.5).to_bits()), 2.5);
}

#[test]
fn at_least_agrees_with_the_comparison_of_doubles() {
    for a in samples() {
        for b in samples() {
            assert_eq!(volume(a).at_least(&volume(b)), a >= b, "{a} >= {b}");
        }
    }
}

#[test]
fn is_nan_and_is_finite_agree_with_doubles() {
    for a in samples() {
        assert_eq!(volume(a).is_nan(), a.is_nan(), "{a}");
        assert_eq!(volume(a).is_finite(), a.is_finite(), "{a}");
    }
    assert!(Volume::from_bits(0x7ff0_0000_0000_0001).is_nan());
    assert!(Volume::from_bits(0xffff_ffff_ffff_ffff).is_nan());
    assert!(!Volume::from_bits(0x7ff0_0000_0000_0000).is_nan());
    assert!(!Volume::from_bits(0x7ff0_0000_0000_0000).is_finite());
    assert!(Volume::from_bits(0x7fef_ffff_ffff_ffff).is_finite());
}

#[test]
fn rank_key_exact_values() {
    assert_eq!(volume(0.0).rank_key(), 0x8000_0000_0000_0000);
    assert_eq!(volume(-0.0).rank_key(), 0x8000_0000_0000_0000);
    assert_eq!(volume(1000.0).rank_key(), 0x8000_0000_0000_0000 + 0x408f_4000_0000_0000);
    assert_eq!(volume(-1000.0).rank_key(), 0x8000_0000_0000_0000 - 0x408f_4000_0000_0000);
    assert_eq!(volume(f64::INFINITY).rank_key(), 0xfff0_0000_0000_0000);
    assert_eq!(volume(f64::NEG_INFINITY).rank_key(), 0x0010_0000_0000_0000);
    assert_eq!(volume(f64::NAN).rank_key(), 0);
    assert_eq!(Volume::from_bits(0xfff8_0000_0000_0000).rank_key(), 0);
}

#[test]
fn rank_key_orders_numbers_as_doubles_do() {
    for a in samples() {
        for b in samples() {
            if !a.is_nan() && !b.is_nan() {
                assert_eq!(volume(a).rank_key() >= volume(b).rank_key(), a >= b, "{a} {b}");
                assert_eq!(volume(a).rank_key() == volume(b).rank_key(), a == b, "{a} {b}");
            }
        }
    }
}

#[test]
fn ranks_at_or_above_puts_nan_last() {
    for a in samples() {
        for b in samples() {
            let expected = b.is_nan() || a >= b;
            assert_eq!(volume(a).ranks_at_or_above(&volume(b)), expected, "{a} {b}");
        }
    }
}

#[test]
fn both_zeros_are_equal() {
    assert!(volume(0.0).at_least(&volume(-0.0)));
    assert!(volume(-0.0).at_least(&volume(0.0)));
}

#[test]
fn neighbouring_patterns_are_told_apart() {
    let threshold = volume(1000.0);
    let below = Volume::from_bits(1000.0f64.to_bits() - 1);
    let above = Volume::from_bits(1000.0f64.to_bits() + 1);
    assert!(!below.at_least(&threshold));
    assert!(above.at_least(&threshold));
    assert!(threshold.at_least(&below));
    assert!(!threshold.at_least(&above));
}
