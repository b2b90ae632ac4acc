use spark::error::ParseError;
use spark::resolver::resolve_timeout;
use spark::timeout::{parse_timeout, Timeout, DEFAULT_TIMEOUT_SECS};

#[test]
fn timeout_in_milliseconds() {
    let t = parse_timeout("500ms").unwrap();
    assert_eq!(t.as_millis(), 500);
    assert_eq!(t.secs(), 0);
    assert_eq!(t.subsec_millis(), 500);
    assert_eq!(t, Timeout::from_millis(500));
}

#[test]
fn timeout_in_seconds() {
    let t = parse_timeout("3s").unwrap();
    assert_eq!(t.as_millis(), 3000);
    assert_eq!(t.secs(), 3);
    assert_eq!(t.subsec_millis(), 0);
    assert_eq!(t, Timeout::from_secs(3));
}

#[test]
fn absent_timeout_is_two_seconds() {
    let t = resolve_timeout(None, None).unwrap();
    assert_eq!(t.as_millis(), 2000);
    assert_eq!(t, Timeout::default());
    assert_eq!(DEFAULT_TIMEOUT_SECS, 2);
}

#[test]
fn unknown_unit_is_refused() {
    assert_eq!(parse_timeout("5x"), Err(ParseError::InvalidTimeoutUnit));
    assert_eq!(parse_timeout("5"), Err(ParseError::InvalidTimeoutUnit));
    assert_eq!(parse_timeout(""), Err(ParseError::InvalidTimeoutUnit));
    assert_eq!(parse_timeout("5m"), Err(ParseError::InvalidTimeoutUnit));
    assert_eq!(parse_timeout("5S"), Err(ParseError::InvalidTimeoutUnit));
    assert_eq!(parse_timeout("5MS"), Err(ParseError::InvalidTimeoutUnit));
    assert_eq!(parse_timeout("5sec"), Err(ParseError::InvalidTimeoutUnit));
}

#[test]
fn bad_number_is_refused() {
    assert_eq!(parse_timeout("ms"), Err(ParseError::InvalidTimeoutValue));
    assert_eq!(parse_timeout("s"), Err(ParseError::InvalidTimeoutValue));
    assert_eq!(parse_timeout("xs"), Err(ParseError::InvalidTimeoutValue));
    assert_eq!(parse_timeout("-5s"), Err(ParseError::InvalidTimeoutValue));
    assert_eq!(parse_timeout("1.5s"), Err(ParseError::InvalidTimeoutValue));
    assert_eq!(parse_timeout("5 s"), Err(ParseError::InvalidTimeoutValue));
    assert_eq!(parse_timeout("5us"), Err(ParseError::InvalidTimeoutValue));
    assert_eq!(parse_timeout("5ss"), Err(ParseError::InvalidTimeoutValue));
    assert_eq!(parse_timeout("5mms"), Err(ParseError::InvalidTimeoutValue));
}

#[test]
fn zero_is_a_timeout() {
    assert_eq!(parse_timeout("0s").unwrap().as_millis(), 0);
    assert_eq!(parse_timeout("0ms").unwrap().as_millis(), 0);
}

#[test]
fn milliseconds_beyond_a_second() {
    let t = parse_timeout("1500ms").unwrap();
    assert_eq!(t.secs(), 1);
    assert_eq!(t.subsec_millis(), 500);
    assert_eq!(t.as_millis(), 1500);
    assert_eq!(parse_timeout("1000ms"), parse_timeout("1s"));
}

#[test]
fn largest_numbers() {
    let s = parse_timeout("18446744073709551615s").unwrap();
    assert_eq!(s.secs(), u64::MAX);
    assert_eq!(s.as_millis(), u64::MAX as u128 * 1000);
    let ms = parse_timeout("18446744073709551615ms").unwrap();
    assert_eq!(ms.as_millis(), u64::MAX as u128);
    assert_eq!(ms.secs(), u64::MAX / 1000);
    assert_eq!(ms.subsec_millis(), (u64::MAX % 1000) as u16);
    assert_eq!(parse_timeout("18446744073709551616s"), Err(ParseError::InvalidTimeoutValue));
    assert_eq!(parse_timeout("18446744073709551616ms"), Err(ParseError::InvalidTimeoutValue));
}

#[test]
fn timeout_number_may_have_plus_sign_and_leading_zeros() {
    assert_eq!(parse_timeout("+5s").unwrap().as_millis(), 5000);
    assert_eq!(parse_timeout("007ms").unwrap().as_millis(), 7);
}

#[test]
fn flag_and_value() {
    assert_eq!(resolve_timeout(Some("-t"), Some("250ms")).unwrap().as_millis(), 250);
    assert_eq!(resolve_timeout(Some("-t"), Some("5x")), Err(ParseError::InvalidTimeoutUnit));
    assert_eq!(resolve_timeout(Some("-t"), Some("xs")), Err(ParseError::InvalidTimeoutValue));
}

#[test]
fn flag_without_value() {
    assert_eq!(resolve_timeout(Some("-t"), None), Err(ParseError::MissingTimeoutValue));
}

#[test]
fn other_flag_is_refused() {
    assert_eq!(resolve_timeout(Some("-T"), Some("3s")), Err(ParseError::InvalidArgument));
    assert_eq!(resolve_timeout(Some("-x"), None), Err(ParseError::InvalidArgument));
    assert_eq!(resolve_timeout(Some("t"), Some("3s")), Err(ParseError::InvalidArgument));
    assert_eq!(resolve_timeout(Some("-t "), Some("3s")), Err(ParseError::InvalidArgument));
    assert_eq!(resolve_timeout(None, Some("3s")), Err(ParseError::InvalidArgument));
}
