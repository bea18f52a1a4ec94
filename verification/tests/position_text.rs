use zaber_opcua::position::{format_position, parse_position, Position};

#[test]
fn parses_plain_and_fractional_payloads() {
    assert_eq!(parse_position("12.500").unwrap().micros, 12_500_000);
    assert_eq!(parse_position("0").unwrap().micros, 0);
    assert_eq!(parse_position("5").unwrap().micros, 5_000_000);
    assert_eq!(parse_position("0.000001").unwrap().micros, 1);
    assert_eq!(parse_position("999999999999").unwrap().micros, 999_999_999_999_000_000);
}

#[test]
fn parses_signed_payloads() {
    assert_eq!(parse_position("-3.25").unwrap().micros, -3_250_000);
    assert_eq!(parse_position("-0.5").unwrap().micros, -500_000);
    assert_eq!(parse_position("-7").unwrap().micros, -7_000_000);
}

#[test]
fn rejects_malformed_payloads() {
    assert!(parse_position("abc").is_none());
    assert!(parse_position("").is_none());
    assert!(parse_position("-").is_none());
    assert!(parse_position(".5").is_none());
    assert!(parse_position("5.").is_none());
    assert!(parse_position("5.5.5").is_none());
    assert!(parse_position("12a").is_none());
    assert!(parse_position("1 2").is_none());
    assert!(parse_position("--1").is_none());
}

#[test]
fn rejects_payloads_out_of_range() {
    // a thirteenth integer digit or a seventh fraction digit is refused
    assert!(parse_position("1234567890123").is_none());
    assert!(parse_position("1.1234567").is_none());
    assert_eq!(parse_position("1.123456").unwrap().micros, 1_123_456);
}

#[test]
fn formats_canonical_decimal_text() {
    assert_eq!(format_position(Position { micros: 5_000_000 }), "5.000000");
    assert_eq!(format_position(Position { micros: 0 }), "0.000000");
    assert_eq!(format_position(Position { micros: 12_500_000 }), "12.500000");
    assert_eq!(format_position(Position { micros: -12_500_000 }), "-12.500000");
    assert_eq!(format_position(Position { micros: 1 }), "0.000001");
}

#[test]
fn formatted_text_parses_back_to_the_same_value() {
    for micros in [0i64, 1, -1, 12_500_000, -3_250_000, 999_999_999] {
        let text = format_position(Position { micros });
        assert_eq!(parse_position(&text).unwrap().micros, micros);
    }
}
