use xray_controller::bytes::{bytes_eq, find_bytes, starts_with};
use xray_controller::percent::percent_encode;
use xray_controller::text::{decimal_string, parse_unsigned_bytes, signed_decimal_string};

#[test]
fn find_bytes_returns_first_occurrence() {
    assert_eq!(find_bytes(b"ab\r\ncd\r\n", b"\r\n"), Some(2));
    assert_eq!(find_bytes(b"\r\n\r\n", b"\r\n\r\n"), Some(0));
    assert_eq!(find_bytes(b"aaaa", b"aa"), Some(0));
    assert_eq!(find_bytes(b"xyzab", b"ab"), Some(3));
}

#[test]
fn find_bytes_absent_or_too_long() {
    assert_eq!(find_bytes(b"abc", b"d"), None);
    assert_eq!(find_bytes(b"", b"\r\n"), None);
    assert_eq!(find_bytes(b"a", b"ab"), None);
    assert_eq!(find_bytes(b"a\rb\n", b"\r\n"), None);
}

#[test]
fn byte_comparisons() {
    assert!(bytes_eq(b"abc", b"abc"));
    assert!(!bytes_eq(b"abc", b"abd"));
    assert!(!bytes_eq(b"abc", b"ab"));
    assert!(starts_with(b"POST /apply?x", b"POST /apply"));
    assert!(!starts_with(b"POST /app", b"POST /apply"));
    assert!(starts_with(b"x", b""));
}

#[test]
fn percent_encode_keeps_unreserved_bytes() {
    assert_eq!(percent_encode("AZaz09-_.~"), "AZaz09-_.~");
    assert_eq!(percent_encode(""), "");
}

#[test]
fn percent_encode_escapes_other_bytes_in_upper_hex() {
    assert_eq!(percent_encode("a b/"), "a%20b%2F");
    assert_eq!(percent_encode("ü"), "%C3%BC");
    assert_eq!(percent_encode("{\"k\":[1]}"), "%7B%22k%22%3A%5B1%5D%7D");
    assert_eq!(percent_encode("=&%"), "%3D%26%25");
}

#[test]
fn percent_encode_filter_document() {
    let filters = "{\"label\":[\"com.docker.compose.project=xray\",\"org.xray.controller.role=core\"]}";
    assert_eq!(
        percent_encode(filters),
        "%7B%22label%22%3A%5B%22com.docker.compose.project%3Dxray%22%2C%22org.xray.controller.role%3Dcore%22%5D%7D"
    );
}

#[test]
fn unsigned_numbers_read_like_from_str_radix() {
    assert_eq!(parse_unsigned_bytes(b"1a", 16, u64::MAX), Some(26));
    assert_eq!(parse_unsigned_bytes(b"1A", 16, u64::MAX), Some(26));
    assert_eq!(parse_unsigned_bytes(b"+ff", 16, u64::MAX), Some(255));
    assert_eq!(parse_unsigned_bytes(b"200", 10, 65535), Some(200));
    assert_eq!(parse_unsigned_bytes(b"65535", 10, 65535), Some(65535));
    assert_eq!(parse_unsigned_bytes(b"65536", 10, 65535), None);
    assert_eq!(parse_unsigned_bytes(b"", 10, 65535), None);
    assert_eq!(parse_unsigned_bytes(b"+", 10, 65535), None);
    assert_eq!(parse_unsigned_bytes(b"-1", 10, 65535), None);
    assert_eq!(parse_unsigned_bytes(b"1a", 10, 65535), None);
    assert_eq!(parse_unsigned_bytes(b"ffffffffffffffff", 16, u64::MAX), Some(u64::MAX));
    assert_eq!(parse_unsigned_bytes(b"10000000000000000", 16, u64::MAX), None);
}

#[test]
fn decimal_text() {
    assert_eq!(decimal_string(0), "0");
    assert_eq!(decimal_string(404), "404");
    assert_eq!(decimal_string(u64::MAX), "18446744073709551615");
    assert_eq!(signed_decimal_string(-1), "-1");
    assert_eq!(signed_decimal_string(i32::MIN), "-2147483648");
    assert_eq!(signed_decimal_string(137), "137");
}
