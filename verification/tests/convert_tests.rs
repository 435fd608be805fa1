//! The integer reimplementation of the two floating-point conversions,
//! checked against the machine's own doubles.

use turtle_bridge::convert::{bits_of_i32, round_of_bits};

#[test]
fn bits_of_i32_matches_the_double_of_the_integer() {
    let samples = [
        0,
        1,
        -1,
        2,
        5,
        -5,
        7,
        100,
        -12345,
        65536,
        -65537,
        16777216,
        i32::MAX,
        i32::MIN,
        i32::MAX - 1,
        i32::MIN + 1,
    ];
    for v in samples {
        assert_eq!(bits_of_i32(v), (v as f64).to_bits(), "value {v}");
    }
}

#[test]
fn bits_of_i32_matches_on_a_dense_range() {
    let mut v: i32 = -3000;
    while v <= 3000 {
        assert_eq!(bits_of_i32(v), (v as f64).to_bits(), "value {v}");
        v += 1;
    }
}

#[test]
fn round_of_bits_rounds_to_the_nearest_integer() {
    let samples = [
        0.0,
        -0.0,
        1.0,
        -1.0,
        2.0,
        5.0,
        2.4,
        -2.4,
        2.5,
        -2.5,
        2.75,
        -2.75,
        3.999,
        -3.999,
        0.4999,
        -0.4999,
        0.5,
        -0.5,
        0.75,
        -0.75,
        1e9,
        -1e9,
        123456789.5,
        2147483646.4,
        -2147483647.6,
        1e300,
        -1e300,
        f64::MAX,
        f64::MIN,
        f64::EPSILON,
        f64::MIN_POSITIVE,
        5e-324,
    ];
    for v in samples {
        assert_eq!(round_of_bits(v.to_bits()), v.round() as i32, "value {v}");
    }
}

#[test]
fn round_of_bits_handles_the_special_values() {
    assert_eq!(round_of_bits(f64::NAN.to_bits()), 0);
    assert_eq!(round_of_bits((-f64::NAN).to_bits()), 0);
    assert_eq!(round_of_bits(f64::INFINITY.to_bits()), i32::MAX);
    assert_eq!(round_of_bits(f64::NEG_INFINITY.to_bits()), i32::MIN);
    assert_eq!(round_of_bits((2147483647.5f64).to_bits()), i32::MAX);
    assert_eq!(round_of_bits((2147483648.0f64).to_bits()), i32::MAX);
    assert_eq!(round_of_bits((-2147483648.0f64).to_bits()), i32::MIN);
    assert_eq!(round_of_bits((-2147483649.0f64).to_bits()), i32::MIN);
}

#[test]
fn an_integer_survives_the_wire_conversions() {
    for v in [-1000, -2, -1, 0, 1, 2, 5, 1000, i32::MAX, i32::MIN] {
        assert_eq!(round_of_bits(bits_of_i32(v)), v, "value {v}");
    }
}
