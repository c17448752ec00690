//! HTTP/1.x request-line and header processing, responses and routing.
use vstd::prelude::*;

pub mod method;
pub mod request;
pub mod response;
pub mod route;
pub mod server;
pub mod status;

verus! {

/// Length in bytes from which a request target is refused as too long.
pub const URI_MAX_LEN: usize = 8192;

/// Most bytes that the header section of a request may take.
pub const TOTAL_HEADER_BYTES: usize = 102400;

/// Body length in bytes from which a request body is refused as too large.
pub const MAX_BODY_LEN_BYTES: u64 = 1048576;

} // verus!
