use pathtracer::math::saturate;
use pathtracer::scalar::{Scalar, INFINITY_BITS, ONE_BITS, SIGN_BIT, ZERO_BITS};

fn s(v: f32) -> Scalar {
    Scalar::from_bits(v.to_bits())
}

fn f(v: Scalar) -> f32 {
    f32::from_bits(v.to_bits())
}

fn samples() -> Vec<f32> {
    vec![
        0.0,
        -0.0,
        f32::MIN_POSITIVE,
        -f32::MIN_POSITIVE,
        f32::from_bits(1),
        f32::from_bits(SIGN_BIT | 1),
        f32::from_bits(0x007f_ffff),
        1.0e-30,
        0.001,
        0.04,
        0.25,
        0.5,
        0.999_999_94,
        1.0,
        1.000_000_1,
        1.5,
        2.0,
        100.0,
        254.999_98,
        255.0,
        255.5,
        256.0,
        1.0e9,
        f32::MAX,
        f32::INFINITY,
        -0.001,
        -0.5,
        -1.0,
        -1.5,
        -100.0,
        -1.0e9,
        f32::MIN,
        f32::NEG_INFINITY,
        f32::NAN,
        f32::from_bits(0xffc0_0001),
        f32::from_bits(0x7f80_0001),
    ]
}

#[test]
fn from_bits_and_to_bits_round_trip() {
    for bits in [0u32, 1, ONE_BITS, SIGN_BIT, INFINITY_BITS, 0xffff_ffff, 0x1234_5678] {
        assert_eq!(Scalar::from_bits(bits).to_bits(), bits);
    }
}

#[test]
fn zero_and_one_are_the_patterns_of_zero_and_one() {
    assert_eq!(Scalar::zero().to_bits(), 0.0f32.to_bits());
    assert_eq!(Scalar::zero().to_bits(), ZERO_BITS);
    assert_eq!(Scalar::one().to_bits(), 1.0f32.to_bits());
    assert_eq!(Scalar::one().to_bits(), ONE_BITS);
    assert_eq!(f32::INFINITY.to_bits(), INFINITY_BITS);
}

#[test]
fn is_nan_agrees_with_the_machine() {
    for v in samples() {
        assert_eq!(s(v).is_nan(), v.is_nan(), "{v:?}");
    }
}

#[test]
fn lt_agrees_with_the_machine() {
    for a in samples() {
        for b in samples() {
            assert_eq!(s(a).lt(s(b)), a < b, "{a:?} < {b:?}");
        }
    }
}

#[test]
fn le_agrees_with_the_machine() {
    for a in samples() {
        for b in samples() {
            assert_eq!(s(a).le(s(b)), a <= b, "{a:?} <= {b:?}");
        }
    }
}

#[test]
fn the_two_zeros_are_equal_in_value() {
    assert!(s(0.0).le(s(-0.0)));
    assert!(s(-0.0).le(s(0.0)));
    assert!(!s(0.0).lt(s(-0.0)));
    assert!(!s(-0.0).lt(s(0.0)));
    assert_ne!(s(0.0), s(-0.0));
}

#[test]
fn nothing_compares_with_what_is_not_a_number() {
    let nan = s(f32::NAN);
    for v in samples() {
        assert!(!nan.lt(s(v)));
        assert!(!nan.le(s(v)));
        assert!(!s(v).lt(nan));
        assert!(!s(v).le(nan));
    }
}

#[test]
fn neg_changes_the_sign_only() {
    for v in samples() {
        let n = s(v).neg();
        assert_eq!(n.to_bits(), (-v).to_bits(), "{v:?}");
        assert_eq!(n.neg(), s(v));
    }
    assert_eq!(f(s(0.75).neg()), -0.75);
}

#[test]
fn to_byte_agrees_with_the_machine() {
    for v in samples() {
        assert_eq!(s(v).to_byte(), v as u8, "{v:?}");
    }
    let mut bits: u32 = 0x3f00_0000;
    while bits < 0x4400_0000 {
        let v = f32::from_bits(bits);
        assert_eq!(s(v).to_byte(), v as u8, "{v:?}");
        assert_eq!(s(-v).to_byte(), 0);
        bits += 0x0000_3fff;
    }
}

#[test]
fn to_byte_of_chosen_values() {
    assert_eq!(s(0.0).to_byte(), 0);
    assert_eq!(s(0.999).to_byte(), 0);
    assert_eq!(s(1.0).to_byte(), 1);
    assert_eq!(s(1.999).to_byte(), 1);
    assert_eq!(s(127.5).to_byte(), 127);
    assert_eq!(s(254.999).to_byte(), 254);
    assert_eq!(s(255.0).to_byte(), 255);
    assert_eq!(s(255.9).to_byte(), 255);
    assert_eq!(s(256.0).to_byte(), 255);
    assert_eq!(s(1.0e30).to_byte(), 255);
    assert_eq!(s(f32::INFINITY).to_byte(), 255);
    assert_eq!(s(-3.0).to_byte(), 0);
    assert_eq!(s(f32::NEG_INFINITY).to_byte(), 0);
    assert_eq!(s(f32::NAN).to_byte(), 0);
}

#[test]
fn half_grey_under_gamma_two_is_byte_180() {
    let encoded = 0.5f32.powf(1.0 / 2.0) * 255.0;
    assert_eq!(s(encoded).to_byte(), 180);
    let full = 1.0f32.powf(1.0 / 2.0) * 255.0;
    assert_eq!(s(full).to_byte(), 255);
    let none = 0.0f32.powf(1.0 / 2.0) * 255.0;
    assert_eq!(s(none).to_byte(), 0);
}

#[test]
fn gamma_round_trip_of_half_grey() {
    let gamma = 2.0f32;
    let encoded = 0.5f32.powf(1.0 / gamma);
    let decoded = encoded.powf(gamma);
    assert!((decoded - 0.5).abs() < 1.0e-6, "{decoded}");

    let byte = s(encoded * 255.0).to_byte();
    assert_eq!(byte, 180);
    let shown = (byte as f32 / 255.0).powf(gamma);
    assert!((shown - 0.5).abs() < 1.0 / 255.0, "{shown}");
}

#[test]
fn saturate_agrees_with_the_machine() {
    for v in samples() {
        let expected = v.min(1.0).max(0.0);
        let got = f(saturate(s(v)));
        assert!(got == expected, "{v:?}: {got:?} against {expected:?}");
    }
}

#[test]
fn saturate_of_chosen_values() {
    assert_eq!(saturate(s(0.25)), s(0.25));
    assert_eq!(saturate(s(1.0)), s(1.0));
    assert_eq!(saturate(s(0.0)), s(0.0));
    assert_eq!(saturate(s(-0.0)), s(-0.0));
    assert_eq!(saturate(s(-0.25)), Scalar::zero());
    assert_eq!(saturate(s(f32::NEG_INFINITY)), Scalar::zero());
    assert_eq!(saturate(s(1.25)), Scalar::one());
    assert_eq!(saturate(s(f32::INFINITY)), Scalar::one());
    assert_eq!(saturate(s(f32::NAN)), Scalar::one());
}

#[test]
fn saturate_stays_between_zero_and_one() {
    for v in samples() {
        let r = saturate(s(v));
        assert!(!r.is_nan());
        assert!(Scalar::zero().le(r));
        assert!(r.le(Scalar::one()));
        assert_eq!(saturate(r), r);
    }
}
