use idp::http::method::Method;
use idp::http::request::{Request, RequestLine};
use idp::http::route::handle_route;
use idp::http::status::StatusCode;
use idp::log::{LogEntry, LogLevel};
use idp::oidc::discovery::WellKnownConfig;
use idp::AppState;
use std::sync::{Arc, Mutex};

#[test]
fn level_names() {
    assert_eq!(LogLevel::Error.as_str(), "ERROR");
    assert_eq!(LogLevel::Warn.as_str(), "WARN");
    assert_eq!(LogLevel::Info.as_str(), "INFO");
    assert_eq!(LogLevel::Debug.as_str(), "DEBUG");
}

#[test]
fn log_entry_builders() {
    let e = LogEntry::new();
    assert_eq!(e.level(), LogLevel::Info);
    assert_eq!(e.message(), "No message provided");
    let t = *e.timestamp();
    let e = e.set_level(LogLevel::Warn).set_message("Failed to accept client".to_string());
    assert_eq!(e.level(), LogLevel::Warn);
    assert_eq!(e.message(), "Failed to accept client");
    assert_eq!(*e.timestamp(), t);
}

#[test]
fn discovery_endpoints() {
    let c = WellKnownConfig::new("http://localhost:3000".to_string());
    assert_eq!(c.issuer(), "http://localhost:3000");
    assert_eq!(c.auth_endpoint(), "http://localhost:3000/authorize");
    assert_eq!(c.token_endpoint(), "http://localhost:3000/token");
    assert_eq!(c.userinfo_endpoint(), "http://localhost:3000/userinfo");
    assert_eq!(c.jwks_uri(), "http://localhost:3000/.well-known/jwks.json");
    assert_eq!(c.response_types_supported(), &vec!["code".to_string()]);
    assert_eq!(c.subject_types_supported(), &vec!["public".to_string()]);
    assert_eq!(c.id_token_signing_alg_values_supported(), &vec!["RS256".to_string()]);
    assert_eq!(
        c.scopes_supported(),
        &vec!["openid".to_string(), "profile".to_string(), "email".to_string(), "offline_access".to_string()]
    );
}

fn state() -> AppState {
    let conn = rusqlite::Connection::open_in_memory().unwrap();
    AppState::new(WellKnownConfig::new("http://idp".to_string()), Arc::new(Mutex::new(conn)))
}

#[test]
fn routes() {
    let state = state();
    assert_eq!(state.well_known_config().issuer(), "http://idp");
    let mut request = Request::new();
    let line = RequestLine::parse("GET /.well-known/openid-configuration HTTP/1.1".to_string()).unwrap();
    assert_eq!(*line.get_method(), Method::Get);
    let r = handle_route(&line, &mut request, &state);
    assert_eq!(r.status, StatusCode::InternalServerError);
    assert_eq!(r.body(), "");
    let line = RequestLine::parse("POST /.well-known/openid-configuration HTTP/1.1".to_string()).unwrap();
    assert_eq!(handle_route(&line, &mut request, &state).status, StatusCode::NotFound);
    let line = RequestLine::parse("GET /authorize HTTP/1.1".to_string()).unwrap();
    assert_eq!(handle_route(&line, &mut request, &state).status, StatusCode::NotFound);
}

#[test]
fn log_entry_at_given_time() {
    let t = std::time::UNIX_EPOCH;
    let e = LogEntry::new_at(t);
    assert_eq!(e.level(), LogLevel::Info);
    assert_eq!(e.message(), "No message provided");
    assert_eq!(*e.timestamp(), t);
}
