use idp::http::method::Method;
use idp::http::request::{decode_query, is_valid_query_value, RequestLine};
use idp::http::status::StatusCode;

fn parse(line: &str) -> Result<RequestLine, StatusCode> {
    RequestLine::parse(line.to_string())
}

fn query_value(line: &RequestLine, key: &str) -> Option<String> {
    line.get_query().get(key).cloned()
}

#[test]
fn new_request_line_is_get_root() {
    let line = RequestLine::new();
    assert_eq!(*line.get_method(), Method::Get);
    assert_eq!(line.get_path(), "/");
    assert_eq!(line.get_query().len(), 0);
    assert_eq!(line.get_version(), "");
}

#[test]
fn form_urlencoded_is_placeholder() {
    let line = RequestLine::new();
    assert_eq!(line.handle_form_urlencoded("a=b".to_string()), "Placeholder");
}

#[test]
fn parses_simple_line() {
    let line = parse("GET / HTTP/1.1").unwrap();
    assert_eq!(*line.get_method(), Method::Get);
    assert_eq!(line.get_path(), "/");
    assert_eq!(line.get_version(), "HTTP/1.1");
    assert_eq!(line.get_query().len(), 0);
}

#[test]
fn parses_line_with_crlf_and_tabs() {
    let line = parse("POST\t/token\tHTTP/1.0\r\n").unwrap();
    assert_eq!(*line.get_method(), Method::Post);
    assert_eq!(line.get_path(), "/token");
    assert_eq!(line.get_version(), "HTTP/1.0");
}

#[test]
fn parses_query_pairs() {
    let line = parse("GET /authorize?client_id=abc&scope=openid HTTP/1.1").unwrap();
    assert_eq!(line.get_path(), "/authorize");
    assert_eq!(line.get_query().len(), 2);
    assert_eq!(query_value(&line, "client_id").as_deref(), Some("abc"));
    assert_eq!(query_value(&line, "scope").as_deref(), Some("openid"));
}

#[test]
fn decodes_percent_escapes_in_query() {
    let line = parse("GET /p?a=%41%2b&b=%C3%A9 HTTP/1.1").unwrap();
    assert_eq!(line.get_path(), "/p");
    assert_eq!(query_value(&line, "a").as_deref(), Some("A+"));
    assert_eq!(query_value(&line, "b").as_deref(), Some("é"));
}

#[test]
fn value_keeps_later_equals_signs() {
    let line = parse("GET /p?a=1=2 HTTP/1.1").unwrap();
    assert_eq!(query_value(&line, "a").as_deref(), Some("1=2"));
}

#[test]
fn later_pair_overrides_earlier() {
    let line = parse("GET /p?a=1&a=2 HTTP/1.1").unwrap();
    assert_eq!(line.get_query().len(), 1);
    assert_eq!(query_value(&line, "a").as_deref(), Some("2"));
}

#[test]
fn encoded_ampersand_splits_pairs() {
    let line = parse("GET /p?a=1%26b=2 HTTP/1.1").unwrap();
    assert_eq!(query_value(&line, "a").as_deref(), Some("1"));
    assert_eq!(query_value(&line, "b").as_deref(), Some("2"));
}

#[test]
fn pair_without_equals_keeps_path_and_earlier_pairs() {
    let line = parse("GET /p?a=1&x HTTP/1.1").unwrap();
    assert_eq!(line.get_path(), "/p?a=1&x");
    assert_eq!(line.get_query().len(), 1);
    assert_eq!(query_value(&line, "a").as_deref(), Some("1"));
}

#[test]
fn empty_query_is_malformed_but_line_accepted() {
    let line = parse("GET /p? HTTP/1.1").unwrap();
    assert_eq!(line.get_path(), "/p?");
    assert_eq!(line.get_query().len(), 0);
}

#[test]
fn bad_escape_keeps_query_in_path() {
    let line = parse("GET /p?a=%zz HTTP/1.1").unwrap();
    assert_eq!(line.get_path(), "/p?a=%zz");
    assert_eq!(line.get_query().len(), 0);
    let line = parse("GET /p?a=%4 HTTP/1.1").unwrap();
    assert_eq!(line.get_path(), "/p?a=%4");
}

#[test]
fn decoded_control_character_refuses_query() {
    let line = parse("GET /p?a=%+5 HTTP/1.1").unwrap();
    assert_eq!(line.get_path(), "/p?a=%+5");
    assert_eq!(line.get_query().len(), 0);
}

#[test]
fn invalid_utf8_escape_keeps_query_in_path() {
    let line = parse("GET /p?a=%FF HTTP/1.1").unwrap();
    assert_eq!(line.get_path(), "/p?a=%FF");
    assert_eq!(line.get_query().len(), 0);
}

#[test]
fn wrong_word_count_is_bad_request() {
    assert!(matches!(parse("GET /"), Err(StatusCode::BadRequest)));
    assert!(matches!(parse("GET / HTTP/1.1 extra"), Err(StatusCode::BadRequest)));
    assert!(matches!(parse(""), Err(StatusCode::BadRequest)));
    assert!(matches!(parse("GET /a\u{85}b HTTP/1.1"), Err(StatusCode::BadRequest)));
}

#[test]
fn unknown_method_is_not_implemented() {
    assert!(matches!(parse("FOO / HTTP/1.1"), Err(StatusCode::NotImplemented)));
    assert!(matches!(parse("get / HTTP/1.1"), Err(StatusCode::NotImplemented)));
}

#[test]
fn unsupported_version() {
    assert!(matches!(parse("GET / HTTP/2.0"), Err(StatusCode::HttpVersionNotSupported)));
    assert!(matches!(parse("GET / http/1.1"), Err(StatusCode::HttpVersionNotSupported)));
}

#[test]
fn target_must_start_with_slash() {
    assert!(matches!(parse("GET index.html HTTP/1.1"), Err(StatusCode::BadRequest)));
    assert!(matches!(parse("GET *x HTTP/1.1"), Err(StatusCode::BadRequest)));
}

#[test]
fn control_character_in_target_is_bad_request() {
    assert!(matches!(parse("GET /a\u{7f} HTTP/1.1"), Err(StatusCode::BadRequest)));
    assert!(matches!(parse("GET /a\u{1} HTTP/1.1"), Err(StatusCode::BadRequest)));
}

#[test]
fn target_length_limit() {
    let ok = format!("GET /{} HTTP/1.1", "a".repeat(8190));
    assert!(parse(&ok).is_ok());
    let long = format!("GET /{} HTTP/1.1", "a".repeat(8191));
    assert!(matches!(parse(&long), Err(StatusCode::UriTooLong)));
    // the limit counts bytes: 4096 two-byte characters make 8193 bytes with the slash
    let wide = format!("GET /{} HTTP/1.1", "é".repeat(4096));
    assert!(matches!(parse(&wide), Err(StatusCode::UriTooLong)));
}

#[test]
fn method_checked_before_target() {
    assert!(matches!(parse("FOO noslash HTTP/9"), Err(StatusCode::NotImplemented)));
}

#[test]
fn decode_query_cases() {
    assert_eq!(decode_query("a=b").unwrap(), "a=b");
    assert_eq!(decode_query("a%3Db").unwrap(), "a=b");
    assert_eq!(decode_query("%2b%2B").unwrap(), "++");
    assert_eq!(decode_query("%+f").unwrap(), "\u{f}");
    assert_eq!(decode_query("").unwrap(), "");
    assert_eq!(decode_query("%e2%82%ac").unwrap(), "€");
    assert!(matches!(decode_query("%"), Err(StatusCode::BadRequest)));
    assert!(matches!(decode_query("%4"), Err(StatusCode::BadRequest)));
    assert!(matches!(decode_query("%-1"), Err(StatusCode::BadRequest)));
    assert!(matches!(decode_query("%g0"), Err(StatusCode::BadRequest)));
    assert!(matches!(decode_query("%80"), Err(StatusCode::BadRequest)));
    assert!(matches!(decode_query("%é"), Err(StatusCode::BadRequest)));
}

#[test]
fn plain_query_decodes_to_itself() {
    for q in ["", "abc", "a=b&c=d", "é€", "x+y"] {
        assert_eq!(decode_query(q).unwrap(), q);
    }
}

#[test]
fn percent_encoding_round_trip() {
    for q in ["", "a=b", "é€ x", "%&="] {
        let encoded: String = q.bytes().map(|b| format!("%{:02X}", b)).collect();
        assert_eq!(decode_query(&encoded).unwrap(), q);
    }
}

#[test]
fn query_value_validity() {
    assert!(is_valid_query_value("abc def"));
    assert!(!is_valid_query_value("a\nb"));
    assert!(!is_valid_query_value("a\u{9f}"));
    assert!(is_valid_query_value("a\u{a0}"));
}

#[test]
fn method_names() {
    assert_eq!(Method::from_str("GET").unwrap(), Method::Get);
    assert_eq!(Method::from_str("PATCH").unwrap(), Method::Patch);
    assert_eq!(Method::from_str("DELETE").unwrap(), Method::Delete);
    assert!(matches!(Method::from_str("Get"), Err(StatusCode::NotImplemented)));
}

#[test]
fn status_codes_and_reasons() {
    assert_eq!(StatusCode::Okay.code(), 200);
    assert_eq!(StatusCode::Okay.reason_msg(), "OK");
    assert_eq!(StatusCode::NotFound.code(), 404);
    assert_eq!(StatusCode::UriTooLong.reason_msg(), "URI Too Long");
    assert_eq!(StatusCode::HttpVersionNotSupported.code(), 505);
}

#[test]
fn decoding_shortens_by_two_bytes_per_escape() {
    for (q, escapes) in [("a%3Db", 1usize), ("%C3%A9x", 2), ("plain", 0), ("%41%42%43", 3)] {
        let d = decode_query(q).unwrap();
        assert_eq!(d.len() + 2 * escapes, q.len());
    }
}

#[test]
fn accepted_path_is_target_or_its_part_before_question_mark() {
    let line = parse("GET /a?b=c?d HTTP/1.1").unwrap();
    assert_eq!(line.get_path(), "/a");
    assert_eq!(query_value(&line, "b").as_deref(), Some("c?d"));
    let line = parse("GET /a?bad HTTP/1.1").unwrap();
    assert_eq!(line.get_path(), "/a?bad");
    assert!(line.get_path().len() < 8192);
}
