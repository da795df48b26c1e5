use steg::coefficient::{exceeds_ten, is_positive, is_under_minus_ten, pattern_of_integer};

fn samples() -> Vec<f32> {
    vec![
        0.0,
        -0.0,
        f32::MIN_POSITIVE,
        -f32::MIN_POSITIVE,
        1.0e-45,
        -1.0e-45,
        0.5,
        -0.5,
        9.999999,
        10.0,
        10.000001,
        -9.999999,
        -10.0,
        -10.000001,
        25.0,
        -25.0,
        1.0e30,
        -1.0e30,
        f32::MAX,
        f32::MIN,
        f32::INFINITY,
        f32::NEG_INFINITY,
        f32::NAN,
        -f32::NAN,
    ]
}

#[test]
fn comparisons_agree_with_the_numbers() {
    for value in samples() {
        let bits = value.to_bits();
        assert_eq!(exceeds_ten(bits), value > 10.0, "{} > 10", value);
        assert_eq!(is_under_minus_ten(bits), value < -10.0, "{} < -10", value);
        assert_eq!(is_positive(bits), value > 0.0, "{} > 0", value);
    }
}

#[test]
fn comparisons_agree_around_every_power_of_two() {
    for exponent in 0..=255u32 {
        for fraction in [0u32, 1, 0x20_0000, 0x7f_ffff] {
            for sign in [0u32, 0x8000_0000] {
                let bits = sign | (exponent << 23) | fraction;
                let value = f32::from_bits(bits);
                assert_eq!(exceeds_ten(bits), value > 10.0);
                assert_eq!(is_under_minus_ten(bits), value < -10.0);
                assert_eq!(is_positive(bits), value > 0.0);
            }
        }
    }
}

#[test]
fn patterns_of_whole_numbers_are_those_numbers() {
    for magnitude in (0u32..5000).chain([65535, 196605, 0x7f_ffff, 0x80_0000, 0xff_ffff]) {
        assert_eq!(f32::from_bits(pattern_of_integer(magnitude, false)), magnitude as f32);
        assert_eq!(f32::from_bits(pattern_of_integer(magnitude, true)), -(magnitude as f32));
    }
    assert_eq!(pattern_of_integer(25, false), 25.0f32.to_bits());
    assert_eq!(pattern_of_integer(25, true), (-25.0f32).to_bits());
    assert_eq!(pattern_of_integer(0, true), (-0.0f32).to_bits());
}
