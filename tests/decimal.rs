use env_monitor::decimal::Decimal;

fn d(m: i64, s: u32) -> Decimal {
    Decimal { mantissa: m, scale: s }
}

#[test]
fn parse_accepts_plain_decimals() {
    assert_eq!(Decimal::parse("22.0"), Some(d(220, 1)));
    assert_eq!(Decimal::parse("45"), Some(d(45, 0)));
    assert_eq!(Decimal::parse("-3.25"), Some(d(-325, 2)));
    assert_eq!(Decimal::parse("0.001"), Some(d(1, 3)));
    assert_eq!(Decimal::parse("123456789012345678"), Some(d(123456789012345678, 0)));
}

#[test]
fn parse_rejects_other_text() {
    for s in ["", "-", "+", ".", "e5", "1e", "1e+", "NaN", "Infinity", "inf", "1.2.3", " 1", "12a", "+-1", "1e5.0"] {
        assert_eq!(Decimal::parse(s), None, "{}", s);
    }
    assert_eq!(Decimal::parse("1234567890123456789"), None);
    assert_eq!(Decimal::parse("0.000000000000000001"), None);
    assert_eq!(Decimal::parse("1e18"), None);
    assert_eq!(Decimal::parse("1e-18"), None);
}

#[test]
fn parse_accepts_float_grammar() {
    assert_eq!(Decimal::parse("1e5"), Some(d(100000, 0)));
    assert_eq!(Decimal::parse("1e2"), Some(d(100, 0)));
    assert_eq!(Decimal::parse("+1"), Some(d(1, 0)));
    assert_eq!(Decimal::parse(".5"), Some(d(5, 1)));
    assert_eq!(Decimal::parse("5."), Some(d(5, 0)));
    assert_eq!(Decimal::parse("-.25"), Some(d(-25, 2)));
    assert_eq!(Decimal::parse("1.5e-3"), Some(d(15, 4)));
    assert_eq!(Decimal::parse("2.50E2"), Some(d(250, 0)));
    assert_eq!(Decimal::parse("1e+2"), Some(d(100, 0)));
    assert_eq!(Decimal::parse("1e17"), Some(d(100000000000000000, 0)));
    assert_eq!(Decimal::parse("1e-17"), Some(d(1, 17)));
    assert_eq!(Decimal::parse("0e999999"), Some(d(0, 0)));
    assert_eq!(Decimal::parse("-0.0"), Some(d(0, 0)));
    assert_eq!(Decimal::parse("1e-00000000000000000000001"), Some(d(1, 1)));
}

#[test]
fn text_trims_trailing_zeros() {
    assert_eq!(d(716, 1).to_text(), "71.6");
    assert_eq!(d(7160, 2).to_text(), "71.6");
    assert_eq!(d(450, 1).to_text(), "45");
    assert_eq!(d(-5, 2).to_text(), "-0.05");
    assert_eq!(d(0, 3).to_text(), "0");
    assert_eq!(d(100, 0).to_text(), "100");
    assert_eq!(d(1205, 1).to_text(), "120.5");
}

#[test]
fn text_round_trips() {
    for x in [d(2488, 2), d(-325, 2), d(7000, 3), d(1, 17), d(999999999999999999, 17)] {
        let back = Decimal::parse(&x.to_text()).unwrap();
        assert_eq!(back, x.normalize());
    }
}

#[test]
fn celsius_to_fahrenheit_is_exact() {
    let f = d(220, 1).celsius_to_fahrenheit();
    assert_eq!(f, d(7160, 2));
    assert_eq!(f.to_text(), "71.6");
    assert_eq!(d(-40, 0).celsius_to_fahrenheit().to_text(), "-40");
    assert_eq!(d(100, 0).celsius_to_fahrenheit().to_text(), "212");
    assert_eq!(d(2488, 2).celsius_to_fahrenheit().to_text(), "76.784");
}

#[test]
fn percent_is_clamped() {
    assert_eq!(d(-1, 1).clamp_percent(), d(0, 0));
    assert_eq!(d(1001, 1).clamp_percent(), d(100, 0));
    assert_eq!(d(450, 1).clamp_percent(), d(450, 1));
    assert_eq!(d(10000, 2).clamp_percent(), d(10000, 2));
}

#[test]
fn comparison_across_scales() {
    assert!(d(1005, 1).le(&d(101, 0)));
    assert!(!d(101, 0).le(&d(1005, 1)));
    assert!(d(100, 0).le(&d(10000, 2)));
    assert!(d(-5, 0).le(&d(-49, 1)));
}

#[test]
fn rounding_to_significant_digits() {
    assert_eq!(d(12345, 2).round_significant(4), d(1235, 1));
    assert_eq!(d(12344, 2).round_significant(4), d(1234, 1));
    assert_eq!(d(-12345, 2).round_significant(4), d(-1235, 1));
    assert_eq!(d(2488, 2).round_significant(4), d(2488, 2));
    assert_eq!(d(123456, 0).round_significant(4), d(123500, 0));
    assert_eq!(d(99995, 3).round_significant(4).to_text(), "100");
}
