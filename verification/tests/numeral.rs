use telemetry_bridge::decimal::Decimal;
use telemetry_bridge::decimal::RoundToTwoDecimals;
use telemetry_bridge::numeral::check_numeral;
use telemetry_bridge::numeral::Numeral;

fn decimal_of(text: &str) -> Option<Decimal> {
    match Numeral::parse(text.to_string()) {
        Ok(numeral) => numeral.to_decimal(),
        Err(rejected) => panic!("not a numeral: {}", rejected),
    }
}

fn rounded(units: i64, scale: u8) -> Decimal {
    Decimal { units, scale }.round_to_two_decimals()
}

#[test]
fn plain_numbers_are_numerals() {
    for text in ["0", "42", "42.0", "0.65", "007", "-1", "+1", "-0.30", "1234567890123456789012345"] {
        assert!(check_numeral(text), "{}", text);
    }
}

#[test]
fn a_point_may_stand_first_or_last() {
    assert!(check_numeral(".5"));
    assert!(check_numeral("5."));
    assert!(check_numeral("-.5"));
    assert!(check_numeral("+5."));
    assert!(!check_numeral("."));
    assert!(!check_numeral("-."));
    assert!(!check_numeral("1.2.3"));
    assert!(!check_numeral("1..2"));
}

#[test]
fn exponents_are_numerals() {
    for text in ["1e3", "1E3", "1e+3", "1e-3", "1.5e10", ".5e1", "5.e1", "-2.50E-07", "0e0"] {
        assert!(check_numeral(text), "{}", text);
    }
    for text in ["1e", "1e+", "1e-", "e3", "1e3.0", "1e3e4", "1ee3", "1e 3", ".e3", "-e3"] {
        assert!(!check_numeral(text), "{}", text);
    }
}

#[test]
fn what_is_no_number_is_no_numeral() {
    for text in [
        "", " ", "+", "-", "not-a-number", "42 ", " 42", "4 2", "4_2", "0x10", "1,5", "--1", "+-1",
        "1-", "1+1", "42f", "\u{0663}", "4\u{0662}", "１２", "42\u{00b5}",
    ] {
        assert!(!check_numeral(text), "{:?}", text);
    }
}

#[test]
fn what_is_not_finite_is_no_numeral() {
    for text in ["inf", "-inf", "+inf", "infinity", "Infinity", "nan", "NaN", "-nan"] {
        assert!(!check_numeral(text), "{}", text);
    }
}

#[test]
fn parse_keeps_the_text_or_hands_it_back() {
    let numeral = Numeral::parse("42.0".to_string()).ok().expect("a numeral");
    assert_eq!(numeral.as_str(), "42.0");
    match Numeral::parse("not-a-number".to_string()) {
        Ok(_) => panic!("no numeral"),
        Err(rejected) => assert_eq!(rejected, "not-a-number"),
    }
}

#[test]
fn a_decimal_keeps_every_digit() {
    assert_eq!(decimal_of("42.0"), Some(Decimal { units: 420, scale: 1 }));
    assert_eq!(decimal_of("42"), Some(Decimal { units: 42, scale: 0 }));
    assert_eq!(decimal_of("0.65"), Some(Decimal { units: 65, scale: 2 }));
    assert_eq!(decimal_of("-0.30"), Some(Decimal { units: -30, scale: 2 }));
    assert_eq!(decimal_of(".5"), Some(Decimal { units: 5, scale: 1 }));
    assert_eq!(decimal_of("5."), Some(Decimal { units: 5, scale: 0 }));
    assert_eq!(decimal_of("+007.100"), Some(Decimal { units: 7100, scale: 3 }));
    assert_eq!(decimal_of("-0"), Some(Decimal { units: 0, scale: 0 }));
    assert_eq!(decimal_of("0.000"), Some(Decimal { units: 0, scale: 3 }));
}

#[test]
fn an_exponent_moves_the_point() {
    assert_eq!(decimal_of("1e3"), Some(Decimal { units: 1000, scale: 0 }));
    assert_eq!(decimal_of("1.5e1"), Some(Decimal { units: 15, scale: 0 }));
    assert_eq!(decimal_of("1.50e1"), Some(Decimal { units: 150, scale: 1 }));
    assert_eq!(decimal_of("1e-3"), Some(Decimal { units: 1, scale: 3 }));
    assert_eq!(decimal_of("-2.5E-2"), Some(Decimal { units: -25, scale: 3 }));
    assert_eq!(decimal_of("12.5e+0"), Some(Decimal { units: 125, scale: 1 }));
    assert_eq!(decimal_of("1e18"), Some(Decimal { units: 1_000_000_000_000_000_000, scale: 0 }));
    assert_eq!(decimal_of("1e-255"), Some(Decimal { units: 1, scale: 255 }));
    assert_eq!(decimal_of("1.0e-254"), Some(Decimal { units: 10, scale: 255 }));
    assert_eq!(decimal_of("1e0000000000000000000000002"), Some(Decimal { units: 100, scale: 0 }));
}

#[test]
fn a_decimal_ends_where_its_integers_end() {
    assert_eq!(
        decimal_of("9223372036854775807"),
        Some(Decimal { units: i64::MAX, scale: 0 })
    );
    assert_eq!(decimal_of("9223372036854775808"), None);
    assert_eq!(
        decimal_of("-9223372036854775808"),
        Some(Decimal { units: i64::MIN, scale: 0 })
    );
    assert_eq!(decimal_of("-9223372036854775809"), None);
    assert_eq!(
        decimal_of("-92233720368547758.08"),
        Some(Decimal { units: i64::MIN, scale: 2 })
    );
    assert_eq!(decimal_of("18446744073709551615"), None);
    assert_eq!(decimal_of("18446744073709551616"), None);
    assert_eq!(decimal_of("0.18446744073709551616"), None);
    assert_eq!(decimal_of("1e19"), None);
    assert_eq!(decimal_of("10e18"), None);
    assert_eq!(decimal_of("9e18"), Some(Decimal { units: 9_000_000_000_000_000_000, scale: 0 }));
    assert_eq!(decimal_of("-1e19"), None);
    assert_eq!(decimal_of("1e-256"), None);
    assert_eq!(decimal_of("1.0e-255"), None);
}

#[test]
fn a_huge_exponent_is_read_without_counting_to_it() {
    assert_eq!(decimal_of("1e99999999999999999999999999"), None);
    assert_eq!(decimal_of("-1e99999999999999999999999999"), None);
    assert_eq!(decimal_of("1e-99999999999999999999999999"), None);
    assert_eq!(decimal_of("0e-99999999999999999999999999"), None);
    assert_eq!(
        decimal_of("0e99999999999999999999999999"),
        Some(Decimal { units: 0, scale: 0 })
    );
    assert_eq!(
        decimal_of("-0.000e18446744073709551616"),
        Some(Decimal { units: 0, scale: 0 })
    );
    assert_eq!(decimal_of("0e18446744073709551615"), Some(Decimal { units: 0, scale: 0 }));
    assert_eq!(decimal_of("0.0e3"), Some(Decimal { units: 0, scale: 0 }));
}

#[test]
fn two_decimals_and_fewer_are_left_alone() {
    assert_eq!(rounded(420, 1), Decimal { units: 420, scale: 1 });
    assert_eq!(rounded(65, 2), Decimal { units: 65, scale: 2 });
    assert_eq!(rounded(-7, 0), Decimal { units: -7, scale: 0 });
    assert_eq!(rounded(i64::MIN, 2), Decimal { units: i64::MIN, scale: 2 });
}

#[test]
fn rounding_goes_to_the_nearest_hundredth() {
    assert_eq!(rounded(654, 3), Decimal { units: 65, scale: 2 });
    assert_eq!(rounded(656, 3), Decimal { units: 66, scale: 2 });
    assert_eq!(rounded(-654, 3), Decimal { units: -65, scale: 2 });
    assert_eq!(rounded(-656, 3), Decimal { units: -66, scale: 2 });
    assert_eq!(rounded(123_456_789, 6), Decimal { units: 12_346, scale: 2 });
    assert_eq!(rounded(4, 3), Decimal { units: 0, scale: 2 });
    assert_eq!(rounded(-4, 3), Decimal { units: 0, scale: 2 });
}

#[test]
fn a_half_rounds_away_from_zero() {
    assert_eq!(rounded(655, 3), Decimal { units: 66, scale: 2 });
    assert_eq!(rounded(-655, 3), Decimal { units: -66, scale: 2 });
    assert_eq!(rounded(5, 3), Decimal { units: 1, scale: 2 });
    assert_eq!(rounded(-5, 3), Decimal { units: -1, scale: 2 });
    assert_eq!(rounded(6_500, 4), Decimal { units: 65, scale: 2 });
    assert_eq!(rounded(6_550, 4), Decimal { units: 66, scale: 2 });
    assert_eq!(rounded(6_549, 4), Decimal { units: 65, scale: 2 });
}

#[test]
fn rounding_works_at_the_ends_of_the_range() {
    assert_eq!(rounded(i64::MAX, 3), Decimal { units: 922_337_203_685_477_581, scale: 2 });
    assert_eq!(rounded(i64::MIN, 3), Decimal { units: -922_337_203_685_477_581, scale: 2 });
    assert_eq!(rounded(i64::MAX, 20), Decimal { units: 9, scale: 2 });
    assert_eq!(rounded(i64::MIN, 20), Decimal { units: -9, scale: 2 });
    assert_eq!(rounded(i64::MAX, 21), Decimal { units: 1, scale: 2 });
    assert_eq!(rounded(5_000_000_000_000_000_000, 21), Decimal { units: 1, scale: 2 });
    assert_eq!(rounded(4_999_999_999_999_999_999, 21), Decimal { units: 0, scale: 2 });
    assert_eq!(rounded(i64::MIN, 21), Decimal { units: -1, scale: 2 });
    assert_eq!(rounded(i64::MAX, 22), Decimal { units: 0, scale: 2 });
    assert_eq!(rounded(i64::MIN, 22), Decimal { units: 0, scale: 2 });
    assert_eq!(rounded(i64::MAX, 255), Decimal { units: 0, scale: 2 });
}

#[test]
fn rounding_twice_is_rounding_once() {
    let once = rounded(123_456_789, 6);
    assert_eq!(once.round_to_two_decimals(), once);
}

#[test]
fn a_sensor_value_survives_the_way_through_text() {
    // What the publisher writes with two decimals comes back as the same
    // number of hundredths.
    for hundredths in [30i64, 65, 100, 4200, -5] {
        let text = format!(
            "{}{}.{:02}",
            if hundredths < 0 { "-" } else { "" },
            hundredths.abs() / 100,
            hundredths.abs() % 100
        );
        assert_eq!(decimal_of(&text), Some(Decimal { units: hundredths, scale: 2 }));
        assert_eq!(rounded(hundredths, 2), Decimal { units: hundredths, scale: 2 });
    }
}
