use kv_collections::frame::{Fault, Frame};
use kv_collections::text::parse_decimal;

#[test]
fn decimal_reads_plain_numbers() {
    assert_eq!(parse_decimal("0"), Some(0));
    assert_eq!(parse_decimal("7"), Some(7));
    assert_eq!(parse_decimal("1234567890"), Some(1_234_567_890));
    assert_eq!(parse_decimal("007"), Some(7));
}

#[test]
fn decimal_reads_signs() {
    assert_eq!(parse_decimal("-1"), Some(-1));
    assert_eq!(parse_decimal("+1"), Some(1));
    assert_eq!(parse_decimal("-0"), Some(0));
    assert_eq!(parse_decimal("+0"), Some(0));
}

#[test]
fn decimal_reads_the_ends_of_the_range() {
    assert_eq!(parse_decimal("9223372036854775807"), Some(i64::MAX));
    assert_eq!(parse_decimal("-9223372036854775808"), Some(i64::MIN));
    assert_eq!(parse_decimal("9223372036854775808"), None);
    assert_eq!(parse_decimal("-9223372036854775809"), None);
    assert_eq!(parse_decimal("+9223372036854775808"), None);
    assert_eq!(parse_decimal("92233720368547758070"), None);
    assert_eq!(parse_decimal("99999999999999999999999999"), None);
}

#[test]
fn decimal_refuses_what_is_no_number() {
    for text in ["", "-", "+", "--1", "+-1", "1-", " 1", "1 ", "1_000", "1.5", "0x10", "a", "１"] {
        assert_eq!(parse_decimal(text), None);
    }
}

#[test]
fn decimal_agrees_with_the_standard_parser() {
    for text in
        ["12", "-12", "+12", "", "-", "+", "000", "-000", "9223372036854775807", "9223372036854775808", "-9223372036854775808", "-9223372036854775809", "12a", "é"]
    {
        assert_eq!(parse_decimal(text), text.parse::<i64>().ok());
    }
}

#[test]
fn fault_messages() {
    assert_eq!(Fault::InvalidArguments.message(), "ERR Invalid arguments");
    assert_eq!(Fault::NotSupported.message(), "not supported yet");
    assert_eq!(
        Fault::WrongType.message(),
        "WRONGTYPE Operation against a key holding the wrong kind of value"
    );
    assert_eq!(Fault::IndexOutOfRange.message(), "ERR index out of range");
    assert_eq!(Fault::NoSuchKey.message(), "ERR no such key");
    assert_eq!(Fault::Conflict.message(), "ERR transaction conflict, try again");
    assert_eq!(Fault::Internal.message(), "ERR internal error");
}

#[test]
fn frame_helpers() {
    assert_eq!(Frame::ok(), Frame::Simple("OK".to_string()));
    assert!(Frame::Error(Fault::WrongType).is_error());
    assert!(!Frame::ok().is_error());
    assert!(!Frame::Null.is_error());
}
