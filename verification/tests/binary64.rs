use termfractal::binary64::Binary64;

fn of(value: f64) -> Binary64 {
    Binary64::from_bits(value.to_bits())
}

fn interesting() -> Vec<f64> {
    let mut values = vec![
        0.0,
        -0.0,
        0.5,
        -0.5,
        0.999_999_999_999_999_9,
        1.0,
        -1.0,
        1.5,
        2.0,
        2.999_999_999_999_999_6,
        3.0,
        3.000_000_000_000_000_4,
        -2.3,
        -23.0,
        -23.000_000_000_000_004,
        -22.999_999_999_999_996,
        28.999_999_999_999_996,
        1e-320,
        -1e-320,
        5e-324,
        f64::MIN_POSITIVE,
        2147483646.5,
        2147483647.0,
        2147483647.5,
        2147483648.0,
        2147483649.0,
        -2147483647.5,
        -2147483648.0,
        -2147483648.5,
        -2147483649.0,
        4294967295.0,
        4294967295.5,
        4294967296.0,
        9007199254740992.0,
        1e300,
        -1e300,
        f64::MAX,
        f64::MIN,
        f64::INFINITY,
        f64::NEG_INFINITY,
        f64::NAN,
        -f64::NAN,
    ];
    // A fixed pseudo-random walk over bit patterns, with the exponent drawn
    // near the range where the whole part has bits.
    let mut state: u64 = 0x9e37_79b9_7f4a_7c15;
    for round in 0..20000u64 {
        state = state.wrapping_mul(6364136223846793005).wrapping_add(1442695040888963407);
        let raw = state ^ (state >> 29);
        if round % 2 == 0 {
            values.push(f64::from_bits(raw));
        } else {
            let sign = raw & 0x8000_0000_0000_0000;
            let fraction = raw & 0x000f_ffff_ffff_ffff;
            let exponent = 1000 + (raw >> 52) % 100;
            values.push(f64::from_bits(sign | (exponent << 52) | fraction));
        }
    }
    for whole in -70i64..70 {
        values.push(whole as f64);
        values.push(whole as f64 + 0.25);
        values.push((whole as f64) * 0.1 * 10.0);
    }
    values
}

#[test]
fn bits_round_trip() {
    assert_eq!(Binary64::from_bits(0x4037_0000_0000_0000).to_bits(), 0x4037_0000_0000_0000);
    assert_eq!(of(23.0).to_bits(), 0x4037_0000_0000_0000);
}

#[test]
fn truncation_drops_the_fraction_toward_zero() {
    assert_eq!(of(2.9).to_i32(), 2);
    assert_eq!(of(-2.9).to_i32(), -2);
    assert_eq!(of(-0.9).to_i32(), 0);
    assert_eq!(of(0.9).to_i32(), 0);
    assert_eq!(of(-23.5).to_i32(), -23);
    assert_eq!(of(7.0).to_i32(), 7);
}

#[test]
fn truncation_of_the_scaled_bound_is_not_rounded_down() {
    assert_eq!(of(-2.3 * 10.0).to_i32(), -23);
    assert_eq!(of(0.29 * 100.0).to_i32(), 28);
}

#[test]
fn truncation_saturates() {
    assert_eq!(of(2147483648.0).to_i32(), i32::MAX);
    assert_eq!(of(1e300).to_i32(), i32::MAX);
    assert_eq!(of(f64::INFINITY).to_i32(), i32::MAX);
    assert_eq!(of(-2147483648.0).to_i32(), i32::MIN);
    assert_eq!(of(-2147483649.0).to_i32(), i32::MIN);
    assert_eq!(of(f64::NEG_INFINITY).to_i32(), i32::MIN);
    assert_eq!(of(2147483647.0).to_i32(), i32::MAX);
    assert_eq!(of(2147483646.9).to_i32(), 2147483646);
}

#[test]
fn truncation_of_nan_is_zero() {
    assert_eq!(of(f64::NAN).to_i32(), 0);
    assert_eq!(Binary64::from_bits(0xfff0_0000_0000_0001).to_i32(), 0);
    assert_eq!(Binary64::from_bits(0x7ff8_0000_0000_0000).to_i32(), 0);
}

#[test]
fn truncation_agrees_with_the_machine() {
    for value in interesting() {
        assert_eq!(of(value).to_i32(), value as i32, "{:e}", value);
    }
}

#[test]
fn negation_agrees_with_the_machine() {
    for value in interesting() {
        assert_eq!(of(value).negate().to_bits(), (-value).to_bits(), "{:e}", value);
    }
}

#[test]
fn negation_flips_only_the_sign() {
    assert_eq!(of(1.0).negate(), of(-1.0));
    assert_eq!(of(-0.0).negate(), of(0.0));
    assert_eq!(of(2.5).negate().negate(), of(2.5));
}

#[test]
fn comparison_with_a_whole_number_agrees_with_the_machine() {
    for value in interesting() {
        for bound in [0u32, 1, 2, 3, 4, 22, 23, 24, 1000, 2147483647, 2147483648, u32::MAX] {
            assert_eq!(of(value).is_at_most(bound), value <= bound as f64, "{:e} {}", value, bound);
        }
    }
}

#[test]
fn comparison_with_a_whole_number_at_the_edge() {
    assert!(of(3.0).is_at_most(3));
    assert!(!of(3.000_000_000_000_000_4).is_at_most(3));
    assert!(of(2.999_999_999_999_999_6).is_at_most(3));
    assert!(of(0.0).is_at_most(0));
    assert!(of(-0.0).is_at_most(0));
    assert!(!of(5e-324).is_at_most(0));
    assert!(of(-7.0).is_at_most(0));
    assert!(of(f64::NEG_INFINITY).is_at_most(0));
    assert!(!of(f64::INFINITY).is_at_most(u32::MAX));
    assert!(!of(f64::NAN).is_at_most(u32::MAX));
    assert!(of(4294967295.0).is_at_most(u32::MAX));
    assert!(!of(4294967296.0).is_at_most(u32::MAX));
}

#[test]
fn order_agrees_with_the_machine() {
    let values = interesting();
    let step = values.len() / 97 + 1;
    for (index, first) in values.iter().enumerate() {
        let mut other = index % step;
        while other < values.len() {
            let second = values[other];
            assert_eq!(of(*first).is_le(of(second)), *first <= second, "{:e} {:e}", first, second);
            other += step;
        }
    }
}

#[test]
fn order_at_the_edge() {
    assert!(of(0.0).is_le(of(-0.0)));
    assert!(of(-0.0).is_le(of(0.0)));
    assert!(of(-1.0).is_le(of(1.0)));
    assert!(!of(1.0).is_le(of(-1.0)));
    assert!(of(-2.0).is_le(of(-1.0)));
    assert!(!of(-1.0).is_le(of(-2.0)));
    assert!(of(1.0).is_le(of(1.0)));
    assert!(of(f64::MAX).is_le(of(f64::INFINITY)));
    assert!(!of(f64::INFINITY).is_le(of(f64::MAX)));
    assert!(of(f64::NEG_INFINITY).is_le(of(f64::MIN)));
    assert!(!of(f64::NAN).is_le(of(f64::NAN)));
    assert!(!of(f64::NAN).is_le(of(1.0)));
    assert!(!of(1.0).is_le(of(f64::NAN)));
    assert!(of(5e-324).is_le(of(f64::MIN_POSITIVE)));
}

#[test]
fn truncation_keeps_the_order() {
    let values = interesting();
    for pair in values.windows(2) {
        let (low, high) = if pair[0] <= pair[1] { (pair[0], pair[1]) } else { (pair[1], pair[0]) };
        if of(low).is_le(of(high)) {
            assert!(of(low).to_i32() <= of(high).to_i32(), "{:e} {:e}", low, high);
        }
    }
}
