use idp::http::request::{IntParseError, Request};
use idp::http::status::StatusCode;

#[test]
fn new_request_is_empty() {
    let r = Request::new();
    assert_eq!(r.get_headers().len(), 0);
    assert_eq!(r.get_body_length(), 0);
}

#[test]
fn headers_are_set_and_replaced() {
    let mut r = Request::new();
    r.insert_header("host".to_string(), "a".to_string());
    r.insert_header("accept".to_string(), "*/*".to_string());
    r.insert_header("host".to_string(), "b".to_string());
    assert_eq!(r.get_headers().len(), 2);
    assert_eq!(r.get_headers().get("host").unwrap(), "b");
    assert_eq!(r.get_headers().get("accept").unwrap(), "*/*");
    assert!(r.get_headers().get("missing").is_none());
}

#[test]
fn content_length_parsing() {
    let r = Request::new();
    assert_eq!(r.parse_content_length("0"), Ok(0));
    assert_eq!(r.parse_content_length("123"), Ok(123));
    assert_eq!(r.parse_content_length("+5"), Ok(5));
    assert_eq!(r.parse_content_length("007"), Ok(7));
    assert_eq!(r.parse_content_length("18446744073709551615"), Ok(u64::MAX));
    assert_eq!(r.parse_content_length(""), Err(IntParseError::Empty));
    assert_eq!(r.parse_content_length("+"), Err(IntParseError::InvalidDigit));
    assert_eq!(r.parse_content_length("-1"), Err(IntParseError::InvalidDigit));
    assert_eq!(r.parse_content_length(" 1"), Err(IntParseError::InvalidDigit));
    assert_eq!(r.parse_content_length("1a"), Err(IntParseError::InvalidDigit));
    assert_eq!(r.parse_content_length("18446744073709551616"), Err(IntParseError::PosOverflow));
    assert_eq!(r.parse_content_length("99999999999999999999x"), Err(IntParseError::PosOverflow));
}

#[test]
fn content_length_agrees_with_std() {
    let r = Request::new();
    for s in ["0", "42", "+42", "", "+", "-0", "12x", "18446744073709551615", "18446744073709551616"] {
        assert_eq!(r.parse_content_length(s).ok(), s.parse::<u64>().ok());
    }
}

#[test]
fn decimal_reads_back() {
    let r = Request::new();
    for n in [0u64, 9, 10, 1048575, u64::MAX] {
        assert_eq!(r.parse_content_length(&n.to_string()), Ok(n));
    }
}

#[test]
fn content_length_limit() {
    let r = Request::new();
    assert!(r.is_content_length_allowed(0));
    assert!(r.is_content_length_allowed(1048575));
    assert!(!r.is_content_length_allowed(1048576));
    assert!(!r.is_content_length_allowed(u64::MAX));
}

#[test]
fn body_from_bytes_checks_length_and_utf8() {
    let mut r = Request::new();
    r.set_body_length(5);
    assert_eq!(r.get_body_length(), 5);
    assert_eq!(r.body_from_bytes(b"hello".to_vec()).unwrap(), "hello");
    assert!(matches!(r.body_from_bytes(b"hell".to_vec()), Err(StatusCode::BadRequest)));
    assert!(matches!(r.body_from_bytes(vec![0xff, 0, 0, 0, 0]), Err(StatusCode::BadRequest)));
    let empty = Request::new();
    assert_eq!(empty.body_from_bytes(Vec::new()).unwrap(), "");
}
