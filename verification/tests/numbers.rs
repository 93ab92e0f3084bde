use fsl::chars::parse_int;
use fsl::stdlib::math::{abs, max, min};
use fsl::stdlib::system::version;
use fsl::stdlib::text::{empty, length};

#[test]
fn integers_are_read() {
    assert_eq!(parse_int("42"), Some(42));
    assert_eq!(parse_int("-0"), Some(0));
    assert_eq!(parse_int("+15"), Some(15));
    assert_eq!(parse_int("9223372036854775807"), Some(i64::MAX));
    assert_eq!(parse_int("-9223372036854775808"), Some(i64::MIN));
}

#[test]
fn non_integers_are_refused() {
    assert_eq!(parse_int(""), None);
    assert_eq!(parse_int("+"), None);
    assert_eq!(parse_int("-"), None);
    assert_eq!(parse_int("1a"), None);
    assert_eq!(parse_int(" 1"), None);
    assert_eq!(parse_int("9223372036854775808"), None);
    assert_eq!(parse_int("-9223372036854775809"), None);
    assert_eq!(parse_int("99999999999999999999"), None);
}

#[test]
fn math_functions() {
    assert_eq!(abs(-5), 5);
    assert_eq!(abs(5), 5);
    assert_eq!(max(2, 9), 9);
    assert_eq!(max(-2, -9), -2);
    assert_eq!(min(2, 9), 2);
    assert_eq!(min(4, 4), 4);
}

#[test]
fn text_functions() {
    assert_eq!(length("abc"), 3);
    assert_eq!(length("مرحبا"), 5);
    assert!(empty(""));
    assert!(!empty(" "));
    assert_eq!(version(), "FSL 0.2.3");
}
