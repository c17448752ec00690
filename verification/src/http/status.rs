//! Response status codes.
use vstd::prelude::*;

verus! {

/// The response statuses that the server produces.
#[derive(Clone, Copy, Debug, PartialEq, Eq, Structural)]
pub enum StatusCode {
    Okay,
    BadRequest,
    NotFound,
    RequestTimeout,
    PayloadTooLarge,
    UriTooLong,
    InternalServerError,
    NotImplemented,
    HttpVersionNotSupported,
}

impl StatusCode {
    /// The numeric code of a status.
    pub open spec fn spec_code(self) -> u16 {
        match self {
            StatusCode::Okay => 200,
            StatusCode::BadRequest => 400,
            StatusCode::NotFound => 404,
            StatusCode::RequestTimeout => 408,
            StatusCode::PayloadTooLarge => 413,
            StatusCode::UriTooLong => 414,
            StatusCode::InternalServerError => 500,
            StatusCode::NotImplemented => 501,
            StatusCode::HttpVersionNotSupported => 505,
        }
    }

    /// The reason phrase of a status.
    pub open spec fn spec_reason(self) -> Seq<char> {
        match self {
            StatusCode::Okay => "OK"@,
            StatusCode::BadRequest => "Bad Request"@,
            StatusCode::NotFound => "Not Found"@,
            StatusCode::RequestTimeout => "Request Timeout"@,
            StatusCode::PayloadTooLarge => "Payload Too Large"@,
            StatusCode::UriTooLong => "URI Too Long"@,
            StatusCode::InternalServerError => "Internal Server Error"@,
            StatusCode::NotImplemented => "Not Implemented"@,
            StatusCode::HttpVersionNotSupported => "HTTP Version Not Supported"@,
        }
    }

    /// The numeric code, such as 404.
    pub fn code(&self) -> (r: u16)
        ensures
            r == self.spec_code(),
    {
        match self {
            StatusCode::Okay => 200,
            StatusCode::BadRequest => 400,
            StatusCode::NotFound => 404,
            StatusCode::RequestTimeout => 408,
            StatusCode::PayloadTooLarge => 413,
            StatusCode::UriTooLong => 414,
            StatusCode::InternalServerError => 500,
            StatusCode::NotImplemented => 501,
            StatusCode::HttpVersionNotSupported => 505,
        }
    }

    /// The reason phrase, such as "Not Found".
    pub fn reason_msg(&self) -> (r: &'static str)
        ensures
            r@ == self.spec_reason(),
    {
        match self {
            StatusCode::Okay => "OK",
            StatusCode::BadRequest => "Bad Request",
            StatusCode::NotFound => "Not Found",
            StatusCode::RequestTimeout => "Request Timeout",
            StatusCode::PayloadTooLarge => "Payload Too Large",
            StatusCode::UriTooLong => "URI Too Long",
            StatusCode::InternalServerError => "Internal Server Error",
            StatusCode::NotImplemented => "Not Implemented",
            StatusCode::HttpVersionNotSupported => "HTTP Version Not Supported",
        }
    }
}


/// The status that a numeric code stands for, among those the server produces.
pub open spec fn status_of_code(n: u16) -> Option<StatusCode> {
    if n == 200 {
        Some(StatusCode::Okay)
    } else if n == 400 {
        Some(StatusCode::BadRequest)
    } else if n == 404 {
        Some(StatusCode::NotFound)
    } else if n == 408 {
        Some(StatusCode::RequestTimeout)
    } else if n == 413 {
        Some(StatusCode::PayloadTooLarge)
    } else if n == 414 {
        Some(StatusCode::UriTooLong)
    } else if n == 500 {
        Some(StatusCode::InternalServerError)
    } else if n == 501 {
        Some(StatusCode::NotImplemented)
    } else if n == 505 {
        Some(StatusCode::HttpVersionNotSupported)
    } else {
        None
    }
}

/// Each status has its registered code, so distinct statuses have distinct codes;
/// success is in the 2xx class, the refusals of a request in 4xx, and the server's
/// own failures in 5xx.
pub proof fn lemma_status_codes(s: StatusCode, t: StatusCode)
    ensures
        status_of_code(s.spec_code()) == Some(s),
        s != t ==> s.spec_code() != t.spec_code(),
        (200 <= s.spec_code() < 300) <==> s == StatusCode::Okay,
        (500 <= s.spec_code() < 600) <==> (s == StatusCode::InternalServerError || s
            == StatusCode::NotImplemented || s == StatusCode::HttpVersionNotSupported),
{
}

} // verus!
