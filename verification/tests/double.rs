use gasleak::decimal::{one_decimal, to_count, to_rounded_magnitude, to_rounded_whole, two_decimals};
use gasleak::double::Double;

fn d(x: f64) -> Double {
    Double { bits: x.to_bits() }
}

fn samples() -> Vec<f64> {
    let mut out = vec![
        0.0,
        -0.0,
        1.0,
        -1.0,
        0.1,
        0.95,
        0.005,
        0.125,
        0.375,
        2.5,
        99.995,
        99.999999,
        100.0,
        1e15,
        123456789.987654321,
        f64::MAX,
        f64::MIN,
        f64::MIN_POSITIVE,
        5e-324,
        -5e-324,
        f64::MIN_POSITIVE / 3.0,
        f64::INFINITY,
        f64::NEG_INFINITY,
        f64::NAN,
        9007199254740993.0,
        4503599627370495.5,
        1.7976931348623157e308,
        3.141592653589793e-310,
    ];
    let mut seed: u64 = 0x9e37_79b9_7f4a_7c15;
    for i in 0..400u64 {
        seed = seed.wrapping_mul(6364136223846793005).wrapping_add(1442695040888963407);
        let mixed = seed ^ (seed >> 29);
        out.push(f64::from_bits(mixed));
        // Numbers of everyday size.
        out.push(((mixed >> 11) as f64) / ((1u64 << (i % 50)) as f64));
    }
    out
}

fn same(a: Double, b: f64) -> bool {
    if b.is_nan() {
        f64::from_bits(a.bits).is_nan()
    } else {
        a.bits == b.to_bits()
    }
}

#[test]
fn products_match_the_hardware() {
    let all = samples();
    for (i, a) in all.iter().enumerate() {
        for b in all.iter().skip(i % 7).step_by(7) {
            assert!(same(d(*a).times(d(*b)), a * b), "{a:e} * {b:e}");
        }
    }
}

#[test]
fn quotients_match_the_hardware() {
    let all = samples();
    for (i, a) in all.iter().enumerate() {
        for b in all.iter().skip(i % 7).step_by(7) {
            assert!(same(d(*a).over(d(*b)), a / b), "{a:e} / {b:e}");
        }
    }
}

#[test]
fn sums_match_the_hardware() {
    let all = samples();
    for (i, a) in all.iter().enumerate() {
        for b in all.iter().skip(i % 5).step_by(5) {
            assert!(same(d(*a).plus(d(*b)), a + b), "{a:e} + {b:e}");
        }
        // Close neighbours cancel.
        for step in 1..70u64 {
            let b = -f64::from_bits(a.to_bits().wrapping_add(step.wrapping_mul(step) << (step % 50)));
            assert!(same(d(*a).plus(d(b)), a + b), "{a:e} + {b:e}");
        }
    }
}

#[test]
fn comparisons_match_the_hardware() {
    let all = samples();
    for a in &all {
        for b in all.iter().step_by(3) {
            assert_eq!(d(*a).lt(d(*b)), a < b);
            assert_eq!(d(*a).le(d(*b)), a <= b);
            assert_eq!(d(*a).total_lt(d(*b)), a.total_cmp(b).is_lt());
        }
        assert_eq!(d(*a).is_finite(), a.is_finite());
        assert_eq!(d(*a).is_negative(), a.is_sign_negative());
        assert_eq!(d(*a).abs(), d(a.abs()));
    }
}

#[test]
fn integers_convert_to_the_nearest_double() {
    for n in [
        0i64,
        1,
        -1,
        10,
        730 * 3600,
        9007199254740992,
        9007199254740993,
        9007199254740995,
        -9007199254740993,
        i64::MAX,
        i64::MIN,
        123456789012345678,
    ] {
        assert_eq!(Double::from_i64(n), d(n as f64), "{n}");
    }
    for n in [0u64, u64::MAX, u64::MAX - 1023, u64::MAX - 1025, 1 << 63] {
        assert_eq!(Double::from_u64(n), d(n as f64), "{n}");
    }
}

#[test]
fn decimals_match_the_standard_library() {
    for x in samples() {
        assert_eq!(one_decimal(d(x)), format!("{x:.1}"), "{x:e}");
        assert_eq!(two_decimals(d(x)), format!("{x:.2}"), "{x:e}");
    }
    assert_eq!(two_decimals(d(0.125)), "0.12");
    assert_eq!(two_decimals(d(0.375)), "0.38");
    assert_eq!(one_decimal(d(-0.04)), "-0.0");
    assert_eq!(one_decimal(d(f64::NAN)), "NaN");
    assert_eq!(two_decimals(d(f64::NEG_INFINITY)), "-inf");
    assert_eq!(one_decimal(d(1e22)), "10000000000000000000000.0");
}

#[test]
fn whole_numbers_match_the_standard_library() {
    for x in samples() {
        assert_eq!(to_count(d(x)), x as u64, "{x:e}");
        assert_eq!(to_rounded_whole(d(x)), x.round() as i64, "{x:e}");
        assert_eq!(to_rounded_magnitude(d(x)), x.abs().round() as u64, "{x:e}");
    }
    assert_eq!(to_rounded_whole(d(2.5)), 3);
    assert_eq!(to_rounded_whole(d(-2.5)), -3);
    assert_eq!(to_count(d(-3.0)), 0);
    assert_eq!(to_rounded_whole(d(-1e300)), i64::MIN);
}
