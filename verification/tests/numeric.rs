use polytrade::numeric::decimal::parse_unsigned;
use polytrade::numeric::Double;

fn d(x: f64) -> Double {
    Double::from_bits(x.to_bits())
}

fn f(x: Double) -> f64 {
    f64::from_bits(x.to_bits())
}

fn same(x: Double, y: f64) -> bool {
    if y.is_nan() {
        f(x).is_nan()
    } else {
        x.to_bits() == y.to_bits()
    }
}

fn samples() -> Vec<f64> {
    let mut v = vec![
        0.0,
        -0.0,
        1.0,
        -1.0,
        0.5,
        0.1,
        -0.3,
        2.0,
        3.0,
        1e-10,
        1e10,
        67250.33,
        0.015,
        1e300,
        -1e300,
        1e-300,
        f64::MAX,
        f64::MIN,
        f64::MIN_POSITIVE,
        f64::EPSILON,
        4.9e-324,
        -4.9e-324,
        2.2250738585072011e-308,
        f64::INFINITY,
        f64::NEG_INFINITY,
        f64::NAN,
    ];
    let mut seed: u64 = 0x9e37_79b9_7f4a_7c15;
    for i in 0..40 {
        seed = seed.wrapping_mul(6364136223846793005).wrapping_add(1442695040888963407);
        if i % 2 == 0 {
            v.push(f64::from_bits(seed));
        } else {
            v.push((seed >> 11) as f64 / 1e12 - 4000.0);
        }
    }
    v
}

#[test]
fn arithmetic_is_that_of_the_hardware() {
    for &x in &samples() {
        for &y in &samples() {
            assert!(same(d(x).add(d(y)), x + y), "{x:?} + {y:?}");
            assert!(same(d(x).sub(d(y)), x - y), "{x:?} - {y:?}");
            assert!(same(d(x).mul(d(y)), x * y), "{x:?} * {y:?}");
            assert!(same(d(x).div(d(y)), x / y), "{x:?} / {y:?}");
        }
    }
}

#[test]
fn comparisons_are_those_of_the_hardware() {
    for &x in &samples() {
        for &y in &samples() {
            assert_eq!(d(x).lt(d(y)), x < y);
            assert_eq!(d(x).le(d(y)), x <= y);
            assert_eq!(d(x).gt(d(y)), x > y);
            assert_eq!(d(x).ge(d(y)), x >= y);
            assert_eq!(d(x).equals(d(y)), x == y);
            if x != y {
                assert!(same(d(x).min(d(y)), x.min(y)));
                assert!(same(d(x).max(d(y)), x.max(y)));
            }
        }
    }
}

#[test]
fn signs_and_clamps_are_those_of_the_hardware() {
    for &x in &samples() {
        assert!(same(d(x).abs(), x.abs()));
        assert!(same(d(x).neg(), -x));
        assert!(same(d(x).signum(), x.signum()));
        assert!(same(d(x).clamp(d(-1.0), d(1.0)), x.clamp(-1.0, 1.0)));
    }
}

#[test]
fn roots_are_those_of_the_hardware() {
    for &x in &samples() {
        assert!(same(d(x).sqrt(), x.sqrt()), "sqrt {x:?}");
    }
    assert_eq!(f(d(2.0).sqrt()), 1.4142135623730951);
}

#[test]
fn conversions_are_those_of_the_hardware() {
    for &x in &samples() {
        assert_eq!(d(x).to_u64(), x as u64, "{x:?}");
        assert_eq!(d(x).to_i64(), x as i64, "{x:?}");
    }
    for &n in &[0, 1, 2, 10, 9007199254740993, u64::MAX, u64::MAX - 1024, 1 << 63] {
        assert!(same(Double::from_u64(n), n as f64));
    }
}

#[test]
fn ratios_are_the_decimal_literals() {
    assert!(same(Double::ratio(55, 100), 0.55));
    assert!(same(Double::ratio(25, 1000), 0.025));
    assert!(same(Double::ratio(1, 10), 0.1));
    assert!(same(Double::ratio(1, 3), 1.0 / 3.0));
    assert!(same(Double::ratio(0, 7), 0.0));
    assert!(same(Double::ratio(1, 4503599627370496), f64::EPSILON));
}

#[test]
fn decimals_read_as_the_hardware_reads_them() {
    let texts = [
        "0", "-0", "1", "+1", "0.1", "1e10", "1E-10", "67250.33", ".5", "5.", "-.25e2",
        "1e400", "-1e400", "1e-400", "4.9e-324", "2.4703282292062327e-324",
        "2.4703282292062328e-324", "1.7976931348623157e308", "1.7976931348623159e308",
        "9007199254740993", "123456789012345678901234567890", "inf", "-Infinity", "NaN", "iNf",
        "0.30000000000000004", "179769313486231580793728971405303415079934132710037826936173",
    ];
    for t in texts {
        let expected: f64 = t.parse().unwrap();
        assert!(same(Double::parse(t).unwrap(), expected), "{t}");
    }
    for t in ["", ".", "e5", "1e", "1e+", "--1", "1 ", " 1", "0x10", "1_000", "in", "infinit"] {
        assert!(t.parse::<f64>().is_err());
        assert!(Double::parse(t).is_none(), "{t}");
    }
}

#[test]
fn unsigned_integers_are_read_up_to_their_bound() {
    assert_eq!(parse_unsigned("42", u64::MAX), Some(42));
    assert_eq!(parse_unsigned("+42", u64::MAX), Some(42));
    assert_eq!(parse_unsigned("007", u64::MAX), Some(7));
    assert_eq!(parse_unsigned("18446744073709551615", u64::MAX), Some(u64::MAX));
    assert_eq!(parse_unsigned("18446744073709551616", u64::MAX), None);
    assert_eq!(parse_unsigned("4294967295", 4294967295), Some(4294967295));
    assert_eq!(parse_unsigned("4294967296", 4294967295), None);
    for t in ["", "+", "-1", "4x", " 4", "1.0"] {
        assert_eq!(parse_unsigned(t, u64::MAX), None);
    }
}

#[test]
fn complements_sum_to_one() {
    for i in 0..=1000u64 {
        let p = Double::ratio(i, 1000);
        let sum = p.add(Double::one().sub(p));
        assert_eq!(f(sum), 1.0);
    }
}

#[test]
fn rounding_keeps_the_order() {
    for i in 0..200u64 {
        assert!(Double::ratio(i, 7).lt(Double::ratio(i + 1, 7)));
        assert!(Double::ratio(i, 9).le(Double::ratio(i, 8)));
    }
    assert!(same(Double::ratio(3, 4), 0.75));
}

#[test]
fn products_with_fractions_shrink() {
    for i in 0..=50u64 {
        let share = Double::ratio(i, 50);
        for &x in &samples() {
            if x.is_finite() {
                assert!(share.mul(d(x)).abs().le(d(x).abs()));
            }
        }
    }
}

#[test]
fn weighted_shares_sum_to_at_most_one() {
    for i in 0..=40u64 {
        for j in 0..=40u64 {
            let a = Double::ratio(i, 40).mul(Double::ratio(55, 100));
            let b = Double::ratio(j, 40).mul(Double::ratio(45, 100));
            assert!(a.add(b).le(Double::one()));
            assert!(a.add(b).ge(Double::zero()));
        }
    }
}
