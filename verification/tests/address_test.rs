use msq::address::{format_address, RECORD_LEN, SENTINEL_ADDRESS};
use msq::decimal::{append_decimal, decimal_string};
use msq::QueryError;

#[test]
fn test_decimal_string() {
    assert_eq!(decimal_string(0), "0");
    assert_eq!(decimal_string(7), "7");
    assert_eq!(decimal_string(10), "10");
    assert_eq!(decimal_string(240), "240");
    assert_eq!(decimal_string(1234567890), "1234567890");
    assert_eq!(decimal_string(u64::MAX), "18446744073709551615");
}

#[test]
fn test_decimal_string_is_std_formatting() {
    for n in (0u64..3000).chain([65535, 65536, 99999, 100000, 4294967295]) {
        assert_eq!(decimal_string(n), format!("{}", n));
    }
}

#[test]
fn test_append_decimal_keeps_what_was_there() {
    let mut text = String::from("\\appid\\");
    append_decimal(&mut text, 440);
    assert_eq!(text, "\\appid\\440");
}

#[test]
fn test_format_address() {
    assert_eq!(format_address(216, 52, 143, 114, 27015), "216.52.143.114:27015");
    assert_eq!(format_address(1, 2, 3, 4, 5), "1.2.3.4:5");
    assert_eq!(
        format_address(255, 255, 255, 255, 65535),
        "255.255.255.255:65535"
    );
    assert_eq!(format_address(10, 0, 0, 1, 80), "10.0.0.1:80");
}

#[test]
fn test_sentinel_is_the_zero_address() {
    assert_eq!(SENTINEL_ADDRESS, "0.0.0.0:0");
    assert_eq!(format_address(0, 0, 0, 0, 0), SENTINEL_ADDRESS);
    assert_ne!(format_address(0, 0, 0, 0, 1), SENTINEL_ADDRESS);
    assert_ne!(format_address(0, 0, 0, 1, 0), SENTINEL_ADDRESS);
    assert_ne!(format_address(1, 0, 0, 0, 0), SENTINEL_ADDRESS);
    assert_ne!(format_address(0, 0, 0, 0, 256), SENTINEL_ADDRESS);
}

#[test]
fn test_record_len() {
    assert_eq!(RECORD_LEN, 6);
}

#[test]
fn test_error_messages() {
    assert_eq!(QueryError::TruncatedInput.message(), "truncated input");
    assert_eq!(
        QueryError::ProtocolError.message(),
        "mismatched starting sequence"
    );
}
