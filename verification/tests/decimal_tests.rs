use price_tracker::decimal::Decimal;
use price_tracker::numeral::integer;

fn minor(text: &str) -> Option<i64> {
    Decimal::parse(text).unwrap().minor_units()
}

fn shown(text: &str) -> String {
    Decimal::parse(text).unwrap().display()
}

#[test]
fn integer_reads_signed_digits() {
    assert_eq!(integer("73278"), Some(73278));
    assert_eq!(integer("+5"), Some(5));
    assert_eq!(integer("-5"), Some(-5));
    assert_eq!(integer("-0"), Some(0));
    assert_eq!(integer("007"), Some(7));
    assert_eq!(integer("0"), Some(0));
}

#[test]
fn integer_rejects_other_text() {
    for text in ["", "-", "+", "12a", " 12", "12 ", "1_000", "1.0", "1e3", "--1", "+-1", "abc", "\u{661}"] {
        assert_eq!(integer(text), None, "{:?}", text);
    }
}

#[test]
fn integer_keeps_to_the_range() {
    assert_eq!(integer("9223372036854775807"), Some(i64::MAX));
    assert_eq!(integer("9223372036854775808"), None);
    assert_eq!(integer("-9223372036854775808"), Some(i64::MIN));
    assert_eq!(integer("-9223372036854775809"), None);
    assert_eq!(integer("18446744073709551616"), None);
    assert_eq!(integer("000000000000000000000000000000000000012"), Some(12));
    assert_eq!(integer("99999999999999999999999999999999999999"), None);
}

#[test]
fn minor_units_are_hundredths() {
    assert_eq!(minor("12.5"), Some(1250));
    assert_eq!(minor("189.0"), Some(18900));
    assert_eq!(minor("189"), Some(18900));
    assert_eq!(minor("0.29"), Some(29));
    assert_eq!(minor("1.15"), Some(115));
    assert_eq!(minor("0.07"), Some(7));
    assert_eq!(minor("0"), Some(0));
}

#[test]
fn minor_units_drop_what_is_past_the_second_digit() {
    assert_eq!(minor("12.349"), Some(1234));
    assert_eq!(minor("12.345"), Some(1234));
    assert_eq!(minor("12.3499999"), Some(1234));
    assert_eq!(minor("0.999"), Some(99));
    assert_eq!(minor("0.001"), Some(0));
    assert_eq!(minor("-12.349"), Some(-1234));
    assert_eq!(minor("-0.009"), Some(0));
}

#[test]
fn minor_units_follow_the_exponent() {
    assert_eq!(minor("1e3"), Some(100000));
    assert_eq!(minor("1E3"), Some(100000));
    assert_eq!(minor("1.25e1"), Some(1250));
    assert_eq!(minor("1.25e+1"), Some(1250));
    assert_eq!(minor("125e-1"), Some(1250));
    assert_eq!(minor("1.5e-3"), Some(0));
    assert_eq!(minor("1e16"), Some(1_000_000_000_000_000_000));
    assert_eq!(minor("0e400"), Some(0));
    assert_eq!(minor("1e-400"), Some(0));
}

#[test]
fn minor_units_keep_to_the_range() {
    assert_eq!(minor("92233720368547758.07"), Some(i64::MAX));
    assert_eq!(minor("92233720368547758.08"), None);
    assert_eq!(minor("-92233720368547758.08"), Some(i64::MIN));
    assert_eq!(minor("-92233720368547758.09"), None);
    assert_eq!(minor("1e17"), None);
    assert_eq!(minor("1e400"), None);
    assert_eq!(minor("184467440737095516160"), None);
}

#[test]
fn display_is_plain_notation() {
    assert_eq!(shown("12.5"), "12.5");
    assert_eq!(shown("189.0"), "189");
    assert_eq!(shown("189"), "189");
    assert_eq!(shown("0.5"), "0.5");
    assert_eq!(shown("000.500"), "0.5");
    assert_eq!(shown("0"), "0");
    assert_eq!(shown("0.0"), "0");
    assert_eq!(shown("-0.0"), "0");
    assert_eq!(shown("-2.50"), "-2.5");
    assert_eq!(shown("1e3"), "1000");
    assert_eq!(shown("1.5e-3"), "0.0015");
    assert_eq!(shown("1.2345e2"), "123.45");
    assert_eq!(shown("12345e-2"), "123.45");
    assert_eq!(shown("1e-7"), "0.0000001");
    assert_eq!(shown("1e21"), "1000000000000000000000");
}

#[test]
fn parse_rejects_what_is_no_numeral() {
    for text in ["", "-", ".", "1.", ".5", "1e", "1e+", "1e-", "abc", "+1", "1.5.2", "1 ", " 1", "1e1.5", "0x10", "1,5", "--1", "1e401", "1e-401", "1e99999999999999999999"] {
        assert!(Decimal::parse(text).is_none(), "{:?}", text);
    }
}

#[test]
fn parse_tells_zero_and_sign() {
    assert!(Decimal::parse("0").unwrap().is_zero());
    assert!(Decimal::parse("0.000").unwrap().is_zero());
    assert!(Decimal::parse("-0").unwrap().is_zero());
    assert!(Decimal::parse("0e5").unwrap().is_zero());
    assert!(!Decimal::parse("0.001").unwrap().is_zero());
    assert!(!Decimal::parse("-0").unwrap().is_negative());
    assert!(Decimal::parse("-0.001").unwrap().is_negative());
    assert!(!Decimal::parse("0.001").unwrap().is_negative());
}

#[test]
fn parse_keeps_digits_in_one_form() {
    let number = Decimal::parse("0012.3400").unwrap();
    assert_eq!(number.display(), "12.34");
    assert_eq!(number.minor_units(), Some(1234));
    assert!(!number.is_negative());
    let shifted = Decimal::parse("-1.5e-2").unwrap();
    assert_eq!(shifted.display(), "-0.015");
    assert_eq!(shifted.minor_units(), Some(-1));
    assert!(shifted.is_negative());
}

#[test]
fn cutting_off_agrees_with_rounding_below_half() {
    for (text, units) in [("12.5", 1250), ("12.344", 1234), ("0.004", 0), ("7", 700), ("3.14", 314)] {
        let exact: f64 = text.parse().unwrap();
        assert_eq!(minor(text), Some(units));
        assert_eq!((exact * 100.0).round() as i64, units);
    }
}

#[test]
fn display_reads_back_as_the_same_number() {
    for text in ["0", "12.5", "-2.50", "1e3", "1.5e-3", "000.0100", "-0", "1e-7", "123456789012345678901234567890.000000001"] {
        let number = Decimal::parse(text).unwrap();
        let again = Decimal::parse(&number.display()).unwrap();
        assert_eq!(again.display(), number.display(), "{}", text);
        assert_eq!(again.minor_units(), number.minor_units(), "{}", text);
        assert_eq!(again.is_negative(), number.is_negative(), "{}", text);
        assert_eq!(again.is_zero(), number.is_zero(), "{}", text);
    }
}

#[test]
fn exponent_moves_the_point() {
    for (text, plain) in [
        ("1.2345e0", "1.2345"),
        ("1.2345e1", "12.345"),
        ("1.2345e4", "12345"),
        ("1.2345e6", "1234500"),
        ("1.2345e-1", "0.12345"),
        ("1.2345e-3", "0.0012345"),
        ("120e-1", "12"),
        ("120e-3", "0.12"),
        ("0.00e5", "0"),
        ("-7e-2", "-0.07"),
    ] {
        assert_eq!(shown(text), plain, "{}", text);
        assert_eq!(minor(text), minor(plain), "{}", text);
    }
}
