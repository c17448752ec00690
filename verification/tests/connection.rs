use idp::http::server::{is_valid_header_key, is_valid_header_value, Action, ConnectionHandler, Phase};
use idp::http::status::StatusCode;

fn started(line: &str) -> ConnectionHandler {
    let mut c = ConnectionHandler::new();
    assert_eq!(c.phase(), Phase::ReadingRequestLine);
    assert_eq!(c.on_request_line(Some(line.to_string())), Action::ReadHeaderLine);
    assert_eq!(c.phase(), Phase::ReadingHeaders);
    c
}

fn header(c: &mut ConnectionHandler, line: &str) -> Action {
    c.on_header_line(Some(line.to_string()), 0)
}

#[test]
fn header_key_validity() {
    assert!(is_valid_header_key("content-type"));
    assert!(is_valid_header_key("x-custom_1!#$%&'*+.^`|~"));
    assert!(!is_valid_header_key(""));
    assert!(!is_valid_header_key("bad key"));
    assert!(!is_valid_header_key("a:b"));
    assert!(!is_valid_header_key("é"));
}

#[test]
fn header_value_validity() {
    assert!(is_valid_header_value(""));
    assert!(is_valid_header_value("text/html; charset=utf-8"));
    assert!(!is_valid_header_value("a\rb"));
    assert!(!is_valid_header_value("a\nb"));
}

#[test]
fn full_request_with_body() {
    let mut c = started("POST /token HTTP/1.1\r\n");
    assert_eq!(header(&mut c, "Host: Example.COM\r\n"), Action::ReadHeaderLine);
    assert_eq!(header(&mut c, "Content-Length:  5 \r\n"), Action::ReadHeaderLine);
    assert_eq!(c.request().get_headers().get("host").unwrap(), "example.com");
    assert_eq!(c.request().get_headers().get("content-length").unwrap(), "5");
    assert_eq!(c.request().get_body_length(), 5);
    assert_eq!(header(&mut c, "\r\n"), Action::ReadBody(5));
    assert_eq!(c.phase(), Phase::ReadingBody);
    assert_eq!(c.on_body(Some(b"hello".to_vec())), Action::Respond(StatusCode::Okay));
    assert_eq!(c.phase(), Phase::Finished);
    assert_eq!(c.request_line().unwrap().get_path(), "/token");
}

#[test]
fn bad_request_line_is_answered_with_its_status() {
    let mut c = ConnectionHandler::new();
    assert_eq!(
        c.on_request_line(Some("GET / HTTP/3\r\n".to_string())),
        Action::Respond(StatusCode::HttpVersionNotSupported)
    );
    assert_eq!(c.phase(), Phase::Finished);
    assert!(c.request_line().is_none());
    let mut c = ConnectionHandler::new();
    assert_eq!(c.on_request_line(None), Action::Respond(StatusCode::InternalServerError));
}

#[test]
fn empty_read_ends_headers() {
    let mut c = started("GET / HTTP/1.1");
    assert_eq!(header(&mut c, ""), Action::ReadBody(0));
    assert_eq!(c.on_body(Some(Vec::new())), Action::Respond(StatusCode::Okay));
}

#[test]
fn bare_newline_ends_headers() {
    let mut c = started("GET / HTTP/1.1");
    assert_eq!(header(&mut c, "\n"), Action::ReadBody(0));
}

#[test]
fn line_without_colon_is_skipped() {
    let mut c = started("GET / HTTP/1.1");
    assert_eq!(header(&mut c, "garbage line\r\n"), Action::ReadHeaderLine);
    assert_eq!(c.request().get_headers().len(), 0);
}

#[test]
fn value_keeps_text_after_first_colon() {
    let mut c = started("GET / HTTP/1.1");
    assert_eq!(header(&mut c, "Referer: http://a/b\r\n"), Action::ReadHeaderLine);
    assert_eq!(c.request().get_headers().get("referer").unwrap(), "http://a/b");
}

#[test]
fn invalid_header_name_is_bad_request() {
    let mut c = started("GET / HTTP/1.1");
    assert_eq!(header(&mut c, "Bad Key: x\r\n"), Action::Respond(StatusCode::BadRequest));
    assert_eq!(c.phase(), Phase::Finished);
    let mut c = started("GET / HTTP/1.1");
    assert_eq!(header(&mut c, ": x\r\n"), Action::Respond(StatusCode::BadRequest));
}

#[test]
fn header_value_with_inner_carriage_return_is_bad_request() {
    let mut c = started("GET / HTTP/1.1");
    assert_eq!(header(&mut c, "a: b\rc\r\n"), Action::Respond(StatusCode::BadRequest));
}

#[test]
fn bad_content_length() {
    let mut c = started("GET / HTTP/1.1");
    assert_eq!(header(&mut c, "Content-Length: abc\r\n"), Action::Respond(StatusCode::BadRequest));
    let mut c = started("GET / HTTP/1.1");
    assert_eq!(
        header(&mut c, "content-length: 1048576\r\n"),
        Action::Respond(StatusCode::PayloadTooLarge)
    );
    let mut c = started("GET / HTTP/1.1");
    assert_eq!(header(&mut c, "content-length: 1048575\r\n"), Action::ReadHeaderLine);
    assert_eq!(header(&mut c, "\r\n"), Action::ReadBody(1048575));
}

#[test]
fn timeout_is_checked_first() {
    let mut c = started("GET / HTTP/1.1");
    assert_eq!(c.on_header_line(Some("".to_string()), 10), Action::ReadBody(0));
    let mut c = started("GET / HTTP/1.1");
    assert_eq!(
        c.on_header_line(Some("".to_string()), 11),
        Action::Respond(StatusCode::RequestTimeout)
    );
}

#[test]
fn header_section_size_limit() {
    let mut c = started("GET / HTTP/1.1");
    let line = format!("x: {}\r\n", "a".repeat(1019));
    assert_eq!(line.len(), 1024);
    for _ in 0..100 {
        assert_eq!(header(&mut c, &line), Action::ReadHeaderLine);
    }
    assert_eq!(header(&mut c, &line), Action::Respond(StatusCode::PayloadTooLarge));
}

#[test]
fn header_section_size_limit_is_inclusive() {
    let mut c = started("GET / HTTP/1.1");
    let line = format!("x: {}\r\n", "a".repeat(1019));
    for _ in 0..99 {
        assert_eq!(header(&mut c, &line), Action::ReadHeaderLine);
    }
    let rest = format!("y: {}\r\n", "b".repeat(102400 - 99 * 1024 - 5));
    assert_eq!(header(&mut c, &rest), Action::ReadHeaderLine);
    assert_eq!(header(&mut c, "\r\n"), Action::Respond(StatusCode::PayloadTooLarge));
}

#[test]
fn read_failure_during_headers_is_server_error() {
    let mut c = started("GET / HTTP/1.1");
    assert_eq!(c.on_header_line(None, 0), Action::Respond(StatusCode::InternalServerError));
}

#[test]
fn body_must_match_length_and_be_utf8() {
    let mut c = started("GET / HTTP/1.1");
    header(&mut c, "content-length: 2\r\n");
    header(&mut c, "\r\n");
    assert_eq!(c.on_body(Some(b"a".to_vec())), Action::Respond(StatusCode::BadRequest));
    let mut c = started("GET / HTTP/1.1");
    header(&mut c, "content-length: 2\r\n");
    header(&mut c, "\r\n");
    assert_eq!(c.on_body(Some(vec![0xc3, 0x28])), Action::Respond(StatusCode::BadRequest));
    let mut c = started("GET / HTTP/1.1");
    header(&mut c, "\r\n");
    assert_eq!(c.on_body(None), Action::Respond(StatusCode::BadRequest));
}
