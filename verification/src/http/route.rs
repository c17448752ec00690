//! Dispatch of a request to its handler.
use vstd::prelude::*;
use crate::http::method::Method;
use crate::http::request::{Request, RequestLine};
use crate::http::response::Response;
use crate::http::status::StatusCode;
use crate::oidc::discovery::WellKnownConfig;
use crate::text::str_eq;
use crate::AppState;

verus! {

/// The path of the discovery document.
pub open spec fn discovery_path() -> Seq<char> {
    "/.well-known/openid-configuration"@
}

/// A 404 response with no fields and an empty body.
fn build_not_found_response() -> (r: Response)
    ensures
        r.status_view() == StatusCode::NotFound,
        r.header_pairs() == Seq::<(Seq<char>, Seq<char>)>::empty(),
        r.body_view() == Seq::<char>::empty(),
{
    let mut response = Response::new();
    response.set_status(StatusCode::NotFound);
    response
}

/// The response to a request: `GET` of the discovery path goes to the discovery
/// handler, every other request is answered with 404.
pub fn handle_route(request_line: &RequestLine, request: &mut Request, state: &AppState) -> (r:
    Response)
    ensures
        *final(request) == *old(request),
        r.header_pairs() == Seq::<(Seq<char>, Seq<char>)>::empty(),
        r.body_view() == Seq::<char>::empty(),
        if request_line@.method == Method::Get && request_line@.path == discovery_path() {
            r.status_view() == StatusCode::InternalServerError
        } else {
            r.status_view() == StatusCode::NotFound
        },
{
    let is_get = match request_line.get_method() {
        Method::Get => true,
        _ => false,
    };
    if is_get && str_eq(request_line.get_path().as_str(), "/.well-known/openid-configuration") {
        WellKnownConfig::handle_discovery(state)
    } else {
        build_not_found_response()
    }
}

} // verus!
