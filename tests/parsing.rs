use euribor_chart::rate::parse_decimal;
use euribor_chart::tenor::Tenor;
use euribor_chart::text::{is_missing, rate_of_field, trim_text};
use euribor_chart::window::{parse_integer, window_days_of};

#[test]
fn decimal_with_fraction() {
    assert_eq!(parse_decimal("3.125"), Some(3_125_000_000));
    assert_eq!(parse_decimal("-0.5"), Some(-500_000_000));
    assert_eq!(parse_decimal("+2"), Some(2_000_000_000));
    assert_eq!(parse_decimal("5."), Some(5_000_000_000));
    assert_eq!(parse_decimal(".5"), Some(500_000_000));
    assert_eq!(parse_decimal("0.000000001"), Some(1));
}

#[test]
fn decimal_rejects_other_text() {
    assert_eq!(parse_decimal("."), None);
    assert_eq!(parse_decimal(""), None);
    assert_eq!(parse_decimal("-"), None);
    assert_eq!(parse_decimal("1e3"), None);
    assert_eq!(parse_decimal("1.2.3"), None);
    assert_eq!(parse_decimal("abc"), None);
    assert_eq!(parse_decimal("1.0000000001"), None);
}

#[test]
fn decimal_largest_value() {
    assert_eq!(parse_decimal("9223372036.854775807"), Some(i64::MAX));
    assert_eq!(parse_decimal("9223372036.854775808"), None);
    assert_eq!(parse_decimal("-9223372036.854775807"), Some(-i64::MAX));
    assert_eq!(parse_decimal("99999999999999999999999"), None);
}

#[test]
fn trimming_drops_outer_white_space() {
    assert_eq!(trim_text("  2.5\t"), "2.5");
    assert_eq!(trim_text("\u{a0}a b\u{3000}"), "a b");
    assert_eq!(trim_text("   "), "");
}

#[test]
fn missing_markers() {
    assert!(is_missing("."));
    assert!(is_missing(""));
    assert!(is_missing("No value available"));
    assert!(is_missing("xNO VALUEx"));
    assert!(!is_missing(".."));
    assert!(!is_missing("no-value"));
    assert!(!is_missing("3.1"));
}

#[test]
fn rate_fields() {
    assert_eq!(rate_of_field(" 2.5 "), Some(2_500_000_000));
    assert_eq!(rate_of_field(" . "), None);
    assert_eq!(rate_of_field("No value available"), None);
    assert_eq!(rate_of_field("n/a"), None);
    assert_eq!(rate_of_field("-0.569"), Some(-569_000_000));
}

#[test]
fn window_argument() {
    assert_eq!(window_days_of(None), 360);
    assert_eq!(window_days_of(Some("90")), 90);
    assert_eq!(window_days_of(Some("abc")), 360);
    assert_eq!(window_days_of(Some("")), 360);
    assert_eq!(window_days_of(Some("-5")), -5);
    assert_eq!(parse_integer("+7"), Some(7));
    assert_eq!(parse_integer("9223372036854775807"), Some(i64::MAX));
    assert_eq!(parse_integer("-9223372036854775808"), Some(i64::MIN));
    assert_eq!(parse_integer("9223372036854775808"), None);
    assert_eq!(parse_integer(" 1"), None);
}

#[test]
fn tenor_table() {
    let periods: Vec<i64> = (0..5).map(|i| Tenor::at(i).period_days()).collect();
    assert_eq!(periods, vec![7, 30, 90, 180, 360]);
    let labels: Vec<&str> = (0..5).map(|i| Tenor::at(i).label()).collect();
    assert_eq!(labels, vec!["1w", "1m", "3m", "6m", "12m"]);
    assert_eq!(Tenor::M3.color(), "#2ca02c");
    assert_eq!(Tenor::M12.index(), 4);
}
