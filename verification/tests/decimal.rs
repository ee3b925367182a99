use rustev::decimal::DecimalError::{Empty, OutOfRange, Syntax, TooPrecise};
use rustev::decimal::Rounding::{HalfEven, TowardZero};
use rustev::decimal::{ArithError, Decimal, DecimalError, Rounding, ONE_UNITS};

fn d(s: &str) -> Decimal {
    Decimal::parse(s).unwrap()
}

#[test]
fn grammar_accepts() {
    let cases = [
        ("0", 0),
        ("-0", 0),
        ("-0.0", 0),
        ("1", ONE_UNITS),
        ("1.5", 1_500_000_000),
        ("1.50", 1_500_000_000),
        ("-1.5", -1_500_000_000),
        ("0.000000001", 1),
        ("-0.000000001", -1),
        ("10.000000000", 10 * ONE_UNITS),
        ("123456789", 123_456_789 * ONE_UNITS),
    ];
    for (s, units) in cases {
        assert_eq!(Decimal::parse(s), Ok(Decimal::from_units(units)), "{s}");
    }
}

#[test]
fn grammar_refuses() {
    let cases: [(&str, DecimalError); 16] = [
        ("", Empty),
        ("+1", Syntax { offset: 0 }),
        ("-", Syntax { offset: 1 }),
        ("01", Syntax { offset: 1 }),
        ("-01", Syntax { offset: 2 }),
        ("00", Syntax { offset: 1 }),
        (".", Syntax { offset: 0 }),
        (".5", Syntax { offset: 0 }),
        ("1.", Syntax { offset: 2 }),
        ("1e3", Syntax { offset: 1 }),
        ("1.0e3", Syntax { offset: 3 }),
        (" 1", Syntax { offset: 0 }),
        ("1 ", Syntax { offset: 1 }),
        ("1.2.3", Syntax { offset: 3 }),
        ("0.0000000001", TooPrecise),
        ("1.0000000000", TooPrecise),
    ];
    for (s, e) in cases {
        assert_eq!(Decimal::parse(s), Err(e), "{s:?}");
    }
    assert_eq!(Decimal::parse("--1"), Err(Syntax { offset: 1 }));
    assert_eq!(Decimal::parse("NaN"), Err(Syntax { offset: 0 }));
    assert_eq!(Decimal::parse("١"), Err(Syntax { offset: 0 }));
}

#[test]
fn range_boundaries() {
    let max = Decimal::from_units(i128::MAX);
    let min = Decimal::from_units(i128::MIN);
    assert_eq!(
        max.to_canonical_string(),
        "170141183460469231731687303715.884105727"
    );
    assert_eq!(
        min.to_canonical_string(),
        "-170141183460469231731687303715.884105728"
    );
    assert_eq!(d("170141183460469231731687303715.884105727"), max);
    assert_eq!(d("-170141183460469231731687303715.884105728"), min);
    assert_eq!(
        Decimal::parse("170141183460469231731687303715.884105728"),
        Err(DecimalError::OutOfRange)
    );
    assert_eq!(
        Decimal::parse("-170141183460469231731687303715.884105729"),
        Err(DecimalError::OutOfRange)
    );
    assert_eq!(
        Decimal::parse("999999999999999999999999999999999999999999"),
        Err(DecimalError::OutOfRange)
    );
}

#[test]
fn canonical_round_trip() {
    let units = [
        0,
        1,
        -1,
        ONE_UNITS,
        -ONE_UNITS,
        1_500_000_000,
        -1_050_000_000,
        123_456_789_012,
        i128::MAX,
        i128::MIN,
        i128::MAX - 1,
        i128::MIN + 1,
    ];
    for u in units {
        let x = Decimal::from_units(u);
        let s = x.to_canonical_string();
        assert_eq!(d(&s), x, "{s}");
        assert_eq!(x.to_canonical_string(), s);
        assert!(!s.ends_with('.'));
        assert!(!s.contains('.') || !s.ends_with('0'), "{s}");
    }
    assert_eq!(d("-0").to_canonical_string(), "0");
    assert_eq!(d("1.50").to_canonical_string(), "1.5");
    assert_eq!(d("2.000").to_canonical_string(), "2");
    assert_eq!(d("-0.05").to_canonical_string(), "-0.05");
}

#[test]
fn from_i64_and_sign() {
    assert_eq!(
        Decimal::from_i64(i64::MIN).units(),
        i64::MIN as i128 * ONE_UNITS
    );
    assert_eq!(Decimal::from_i64(-3), d("-3"));
    assert!(d("-0.1").is_negative());
    assert!(!Decimal::zero().is_negative());
    assert!(!d("-0").is_negative());
}

#[test]
fn add_sub_exact_and_overflow() {
    assert_eq!(d("0.1").checked_add(d("0.2")), Ok(d("0.3")));
    assert_eq!(d("0.1").checked_sub(d("0.3")), Ok(d("-0.2")));
    let max = Decimal::from_units(i128::MAX);
    let min = Decimal::from_units(i128::MIN);
    assert_eq!(
        max.checked_add(Decimal::from_units(1)),
        Err(ArithError::Overflow)
    );
    assert_eq!(
        min.checked_sub(Decimal::from_units(1)),
        Err(ArithError::Overflow)
    );
    assert_eq!(max.checked_add(Decimal::zero()), Ok(max));
}

#[test]
fn mul_rounding() {
    assert_eq!(d("1.5").checked_mul(d("2"), HalfEven), Ok(d("3")));
    assert_eq!(d("-1.5").checked_mul(d("2"), HalfEven), Ok(d("-3")));
    // 0.000000025 * 0.1 = 0.0000000025: tie, 2 is even.
    assert_eq!(
        d("0.000000025").checked_mul(d("0.1"), HalfEven),
        Ok(d("0.000000002"))
    );
    // 0.000000035 * 0.1 = 0.0000000035: tie, rounds to 4.
    assert_eq!(
        d("0.000000035").checked_mul(d("0.1"), HalfEven),
        Ok(d("0.000000004"))
    );
    assert_eq!(
        d("-0.000000025").checked_mul(d("0.1"), HalfEven),
        Ok(d("-0.000000002"))
    );
    assert_eq!(
        d("-0.000000035").checked_mul(d("0.1"), HalfEven),
        Ok(d("-0.000000004"))
    );
    // Not a tie: 0.0000000026 rounds up.
    assert_eq!(
        d("0.000000026").checked_mul(d("0.1"), HalfEven),
        Ok(d("0.000000003"))
    );
    assert_eq!(
        d("0.000000029").checked_mul(d("0.1"), TowardZero),
        Ok(d("0.000000002"))
    );
    assert_eq!(
        d("-0.000000029").checked_mul(d("0.1"), TowardZero),
        Ok(d("-0.000000002"))
    );
}

#[test]
fn mul_overflow_is_declared_intermediate() {
    let big = d("10000000000000");
    // 10^13 * 10^13 = 10^26 fits, but the unit product 10^22 * 10^22 does not.
    assert_eq!(
        big.checked_mul(big, Rounding::HalfEven),
        Err(ArithError::Overflow)
    );
    assert_eq!(
        d("1000000").checked_mul(d("1000000"), Rounding::HalfEven),
        Ok(d("1000000000000"))
    );
}

#[test]
fn div_rounding_and_errors() {
    assert_eq!(d("1").checked_div(d("4"), HalfEven), Ok(d("0.25")));
    assert_eq!(d("1").checked_div(d("3"), HalfEven), Ok(d("0.333333333")));
    assert_eq!(d("2").checked_div(d("3"), HalfEven), Ok(d("0.666666667")));
    assert_eq!(d("2").checked_div(d("3"), TowardZero), Ok(d("0.666666666")));
    assert_eq!(d("-2").checked_div(d("3"), HalfEven), Ok(d("-0.666666667")));
    assert_eq!(d("2").checked_div(d("-3"), HalfEven), Ok(d("-0.666666667")));
    assert_eq!(d("-2").checked_div(d("-3"), HalfEven), Ok(d("0.666666667")));
    // Exact tie at the ninth digit: 0.000000005 / 2 = 0.0000000025.
    assert_eq!(
        d("0.000000005").checked_div(d("2"), HalfEven),
        Ok(d("0.000000002"))
    );
    assert_eq!(
        d("-0.000000005").checked_div(d("2"), HalfEven),
        Ok(d("-0.000000002"))
    );
    assert_eq!(
        d("0.000000007").checked_div(d("2"), HalfEven),
        Ok(d("0.000000004"))
    );
    assert_eq!(
        d("1").checked_div(Decimal::zero(), HalfEven),
        Err(ArithError::DivisionByZero)
    );
    assert_eq!(
        Decimal::from_units(i128::MAX).checked_div(d("1"), HalfEven),
        Err(ArithError::Overflow)
    );
}

#[test]
fn round_to_scale_cases() {
    assert_eq!(d("2.5").round_to_scale(0, HalfEven), Ok(d("2")));
    assert_eq!(d("3.5").round_to_scale(0, HalfEven), Ok(d("4")));
    assert_eq!(d("-2.5").round_to_scale(0, HalfEven), Ok(d("-2")));
    assert_eq!(d("-3.5").round_to_scale(0, HalfEven), Ok(d("-4")));
    assert_eq!(d("2.51").round_to_scale(0, HalfEven), Ok(d("3")));
    assert_eq!(d("2.9").round_to_scale(0, TowardZero), Ok(d("2")));
    assert_eq!(d("-2.9").round_to_scale(0, TowardZero), Ok(d("-2")));
    assert_eq!(d("1.005").round_to_scale(2, HalfEven), Ok(d("1")));
    assert_eq!(d("1.015").round_to_scale(2, HalfEven), Ok(d("1.02")));
    assert_eq!(
        d("1.123456789").round_to_scale(9, HalfEven),
        Ok(d("1.123456789"))
    );
    assert_eq!(
        d("1").round_to_scale(10, HalfEven),
        Err(ArithError::InvalidScale)
    );
    assert_eq!(
        Decimal::from_units(i128::MAX).round_to_scale(0, HalfEven),
        Err(ArithError::Overflow)
    );
}

#[test]
fn decimal_ordering_is_by_value() {
    assert!(d("-1").lt(&d("0.5")));
    assert!(d("0.5").le(&d("0.50")));
    assert!(d("0.5").same(&d("0.50")));
    assert!(!d("2").lt(&d("2")));
}
