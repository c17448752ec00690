use idp::http::response::Response;
use idp::http::status::StatusCode;

#[test]
fn new_response_text() {
    let r = Response::new();
    assert_eq!(r.status, StatusCode::InternalServerError);
    assert_eq!(r.body(), "");
    assert_eq!(
        r.to_http_text(),
        "HTTP/1.1 500 Internal Server Error\r\nContent-Length: 0\r\n\r\n"
    );
}

#[test]
fn response_with_headers_and_body() {
    let mut r = Response::new();
    r.set_status(StatusCode::Okay);
    r.set_response_header("Content-Type".to_string(), "text/plain".to_string());
    r.set_response_header("X-A".to_string(), "1".to_string());
    r.set_response_body("héllo".to_string());
    assert_eq!(
        r.to_http_text(),
        "HTTP/1.1 200 OK\r\nContent-Length: 6\r\nContent-Type: text/plain\r\nX-A: 1\r\n\r\nhéllo"
    );
}

#[test]
fn content_length_header_is_not_repeated() {
    let mut r = Response::new();
    r.set_status(StatusCode::NotFound);
    r.set_response_header("CONTENT-length".to_string(), "99".to_string());
    r.set_response_body("abc".to_string());
    assert_eq!(r.to_http_text(), "HTTP/1.1 404 Not Found\r\nContent-Length: 3\r\n\r\nabc");
}

#[test]
fn replacing_a_header_keeps_its_place() {
    let mut r = Response::new();
    r.set_response_header("A".to_string(), "1".to_string());
    r.set_response_header("B".to_string(), "2".to_string());
    r.set_response_header("A".to_string(), "3".to_string());
    assert_eq!(
        r.to_http_text(),
        "HTTP/1.1 500 Internal Server Error\r\nContent-Length: 0\r\nA: 3\r\nB: 2\r\n\r\n"
    );
    assert_eq!(r.headers.get("A").unwrap(), "3");
}
