use yawc::numeric::{parse_decimal, parse_i16, parse_i32};

#[test]
fn parses_plain_and_signed_numbers() {
    assert_eq!(parse_i16("1"), Some(1));
    assert_eq!(parse_i16("-1"), Some(-1));
    assert_eq!(parse_i16("+5"), Some(5));
    assert_eq!(parse_i16("007"), Some(7));
    assert_eq!(parse_i16("-0"), Some(0));
}

#[test]
fn rejects_malformed_text() {
    assert_eq!(parse_i16(""), None);
    assert_eq!(parse_i16("+"), None);
    assert_eq!(parse_i16("-"), None);
    assert_eq!(parse_i16("1a"), None);
    assert_eq!(parse_i16(" 1"), None);
    assert_eq!(parse_i16("1 "), None);
    assert_eq!(parse_i16("--1"), None);
    assert_eq!(parse_i16("\u{0663}"), None);
}

#[test]
fn respects_the_range_of_the_type() {
    assert_eq!(parse_i16("32767"), Some(32767));
    assert_eq!(parse_i16("32768"), None);
    assert_eq!(parse_i16("-32768"), Some(-32768));
    assert_eq!(parse_i16("-32769"), None);
    assert_eq!(parse_i32("2147483647"), Some(i32::MAX));
    assert_eq!(parse_i32("2147483648"), None);
    assert_eq!(parse_i32("-2147483648"), Some(i32::MIN));
    assert_eq!(parse_i32("99999999999999999999999"), None);
    assert_eq!(parse_decimal("250", 0, 255), Some(250));
    assert_eq!(parse_decimal("256", 0, 255), None);
}

#[test]
fn agrees_with_std_parse() {
    for s in ["0", "12", "-12", "+12", "", "+", "x", "40000", "-40000", "1_0", "٣"] {
        assert_eq!(parse_i16(s), s.parse::<i16>().ok(), "{s:?}");
        assert_eq!(parse_i32(s), s.parse::<i32>().ok(), "{s:?}");
    }
}

#[test]
fn decimal_text_reads_back() {
    for v in [i16::MIN, -1000, -1, 0, 1, 9, 10, 12345, i16::MAX] {
        assert_eq!(parse_i16(&v.to_string()), Some(v));
    }
    for v in [i32::MIN, -70000, 0, 70000, i32::MAX] {
        assert_eq!(parse_i32(&v.to_string()), Some(v));
    }
}
