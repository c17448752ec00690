//! Reading a request from a connection, as a machine that the caller drives: it
//! tells what to read next or with which status to answer.
use vstd::prelude::*;
use crate::http::request::{
    request_line_outcome, u64_from_decimal, Request, RequestLine, RequestLineView, RequestView,
};
use crate::http::status::StatusCode;
use crate::http::{MAX_BODY_LEN_BYTES, TOTAL_HEADER_BYTES};
use crate::text::{
    chars_of, split_once, split_once_char, str_eq, to_lowercase, trim, trim_str,
    unicode_lowercase,
};
use vstd::utf8::{encode_utf8, valid_utf8};

verus! {

/// The characters that HTTP allows in a header name besides letters and digits.
pub open spec fn is_token_char(c: char) -> bool {
    ||| ('0' <= c && c <= '9')
    ||| ('a' <= c && c <= 'z')
    ||| ('A' <= c && c <= 'Z')
    ||| c == '!' || c == '#' || c == '$' || c == '%' || c == '&' || c == '\''
    ||| c == '*' || c == '+' || c == '-' || c == '.' || c == '^' || c == '_'
    ||| c == '`' || c == '|' || c == '~'
}

/// A header name: not empty, made of token characters.
pub open spec fn valid_header_key(k: Seq<char>) -> bool {
    k.len() > 0 && forall|i: int| 0 <= i < k.len() ==> is_token_char(#[trigger] k[i])
}

/// A header value: no carriage return and no line feed.
pub open spec fn valid_header_value(v: Seq<char>) -> bool {
    forall|i: int| 0 <= i < v.len() ==> (#[trigger] v[i]) != '\r' && v[i] != '\n'
}

fn char_is_token(c: char) -> (r: bool)
    ensures
        r == is_token_char(c),
{
    ('0' <= c && c <= '9') || ('a' <= c && c <= 'z') || ('A' <= c && c <= 'Z') || c == '!' || c
        == '#' || c == '$' || c == '%' || c == '&' || c == '\'' || c == '*' || c == '+' || c
        == '-' || c == '.' || c == '^' || c == '_' || c == '`' || c == '|' || c == '~'
}

/// Whether `key` is a valid header name.
pub fn is_valid_header_key(key: &str) -> (r: bool)
    ensures
        r == valid_header_key(key@),
{
    let chars = chars_of(key);
    let n = chars.len();
    if n == 0 {
        return false;
    }
    let mut i: usize = 0;
    while i < n
        invariant
            n == chars@.len(),
            chars@ == key@,
            i <= n,
            forall|j: int| 0 <= j < i ==> is_token_char(#[trigger] key@[j]),
        decreases n - i,
    {
        if !char_is_token(chars[i]) {
            return false;
        }
        i += 1;
    }
    true
}

/// Whether `value` is a valid header value.
pub fn is_valid_header_value(value: &str) -> (r: bool)
    ensures
        r == valid_header_value(value@),
{
    let chars = chars_of(value);
    let n = chars.len();
    let mut i: usize = 0;
    while i < n
        invariant
            n == chars@.len(),
            chars@ == value@,
            i <= n,
            forall|j: int| 0 <= j < i ==> (#[trigger] value@[j]) != '\r' && value@[j] != '\n',
        decreases n - i,
    {
        if chars[i] == '\r' || chars[i] == '\n' {
            return false;
        }
        i += 1;
    }
    true
}


/// Seconds after which a request whose header section is not complete is refused.
pub const HEADER_TIMEOUT_SECS: u64 = 10;

/// Where the reading of a request stands.
#[derive(Clone, Copy, Debug, PartialEq, Eq, Structural)]
pub enum Phase {
    ReadingRequestLine,
    ReadingHeaders,
    ReadingBody,
    Finished,
}

/// What the caller is to do next.
#[derive(Clone, Copy, Debug, PartialEq, Eq, Structural)]
pub enum Action {
    /// Read one more header line and hand it to `on_header_line`.
    ReadHeaderLine,
    /// Read this many body bytes and hand them to `on_body`.
    ReadBody(u64),
    /// Answer with this status and close.
    Respond(StatusCode),
}

/// The abstract state of a connection.
pub ghost struct ConnectionView {
    pub phase: Phase,
    pub request_line: Option<RequestLineView>,
    pub request: RequestView,
    pub header_bytes: nat,
}

impl ConnectionView {
    /// What holds of every state: the header section read so far fits in
    /// `TOTAL_HEADER_BYTES`, the body length is below `MAX_BODY_LEN_BYTES`, every
    /// stored header has a valid name and value, and while headers or body are read
    /// the request line is known.
    pub open spec fn wf(self) -> bool {
        &&& self.header_bytes <= TOTAL_HEADER_BYTES
        &&& self.request.body_length < MAX_BODY_LEN_BYTES
        &&& forall|k: Seq<char>| #[trigger]
            self.request.headers.contains_key(k) ==> valid_header_key(k) && valid_header_value(
                self.request.headers[k],
            )
        &&& (self.phase == Phase::ReadingHeaders || self.phase == Phase::ReadingBody)
            ==> self.request_line is Some
    }
}

/// The name and value of a header line: the text before and after its first `:`,
/// trimmed and lowercased.
pub open spec fn header_fields(line: Seq<char>) -> Option<(Seq<char>, Seq<char>)> {
    match split_once(line, ':') {
        Some((k, v)) => Some((unicode_lowercase(trim(k)), unicode_lowercase(trim(v)))),
        None => None,
    }
}

/// One header line read after `header_bytes` bytes of header section, `elapsed`
/// seconds into the request: the new request head, the new byte count and the action.
/// Past the time limit the answer is 408; an empty read or a blank line ends the
/// header section; past `TOTAL_HEADER_BYTES` the answer is 413; a line without `:` is
/// skipped; a bad name or value is a 400; a `content-length` that is not a number is a
/// 400 and one of `MAX_BODY_LEN_BYTES` or more is a 413; otherwise the field is stored.
pub open spec fn header_step(req: RequestView, header_bytes: nat, line: Seq<char>, elapsed: u64) -> (
    RequestView,
    nat,
    Action,
) {
    let len = encode_utf8(line).len();
    if elapsed > HEADER_TIMEOUT_SECS {
        (req, header_bytes, Action::Respond(StatusCode::RequestTimeout))
    } else if len == 0 {
        (req, header_bytes, Action::ReadBody(req.body_length))
    } else if header_bytes + len > TOTAL_HEADER_BYTES {
        (req, header_bytes, Action::Respond(StatusCode::PayloadTooLarge))
    } else if line == "\r\n"@ || line == "\n"@ {
        (req, header_bytes + len, Action::ReadBody(req.body_length))
    } else {
        let total = header_bytes + len;
        match header_fields(line) {
            None => (req, total, Action::ReadHeaderLine),
            Some((k, v)) => if !valid_header_key(k) || !valid_header_value(v) {
                (req, total, Action::Respond(StatusCode::BadRequest))
            } else if k == "content-length"@ {
                match u64_from_decimal(v) {
                    Err(_) => (req, total, Action::Respond(StatusCode::BadRequest)),
                    Ok(n) => if n >= MAX_BODY_LEN_BYTES {
                        (req, total, Action::Respond(StatusCode::PayloadTooLarge))
                    } else {
                        (
                            RequestView { headers: req.headers.insert(k, v), body_length: n as u64 },
                            total,
                            Action::ReadHeaderLine,
                        )
                    },
                }
            } else {
                (
                    RequestView { headers: req.headers.insert(k, v), body_length: req.body_length },
                    total,
                    Action::ReadHeaderLine,
                )
            },
        }
    }
}

/// The phase that follows an action.
pub open spec fn phase_after(a: Action) -> Phase {
    match a {
        Action::ReadHeaderLine => Phase::ReadingHeaders,
        Action::ReadBody(_) => Phase::ReadingBody,
        Action::Respond(_) => Phase::Finished,
    }
}

/// The reading of one request from a connection.
pub struct ConnectionHandler {
    phase: Phase,
    request_line: Option<RequestLine>,
    request: Request,
    header_bytes: usize,
}

impl View for ConnectionHandler {
    type V = ConnectionView;

    closed spec fn view(&self) -> ConnectionView {
        ConnectionView {
            phase: self.phase,
            request_line: match self.request_line {
                Some(l) => Some(l@),
                None => None,
            },
            request: self.request@,
            header_bytes: self.header_bytes as nat,
        }
    }
}

impl ConnectionHandler {
    /// A connection that waits for its request line.
    pub fn new() -> (r: Self)
        ensures
            r@.phase == Phase::ReadingRequestLine,
            r@.request_line is None,
            r@.request.headers == Map::<Seq<char>, Seq<char>>::empty(),
            r@.request.body_length == 0,
            r@.header_bytes == 0,
            r@.wf(),
    {
        ConnectionHandler {
            phase: Phase::ReadingRequestLine,
            request_line: None,
            request: Request::new(),
            header_bytes: 0,
        }
    }

    /// The phase.
    pub fn phase(&self) -> (r: Phase)
        ensures
            r == self@.phase,
    {
        self.phase
    }

    /// The request line, once read.
    pub fn request_line(&self) -> (r: Option<&RequestLine>)
        ensures
            match r {
                Some(l) => self@.request_line == Some(l@),
                None => self@.request_line is None,
            },
    {
        match &self.request_line {
            Some(l) => Some(l),
            None => None,
        }
    }

    /// The request head read so far.
    pub fn request(&self) -> (r: &Request)
        ensures
            r@ == self@.request,
    {
        &self.request
    }

    /// The first line of the request has been read (`None`: the read failed, a 500).
    /// A line that does not parse is answered with the status that the parsing gives.
    pub fn on_request_line(&mut self, line: Option<String>) -> (r: Action)
        requires
            old(self)@.phase == Phase::ReadingRequestLine,
            old(self)@.wf(),
        ensures
            final(self)@.wf(),
            final(self)@.phase == phase_after(r),
            final(self)@.request == old(self)@.request,
            final(self)@.header_bytes == old(self)@.header_bytes,
            r != Action::ReadHeaderLine ==> final(self)@.request_line == old(self)@.request_line,
            match line {
                None => r == Action::Respond(StatusCode::InternalServerError),
                Some(l) => match request_line_outcome(l@) {
                    Ok(v) => r == Action::ReadHeaderLine && final(self)@.request_line == Some(v),
                    Err(e) => r == Action::Respond(e),
                },
            },
    {
        let line = match line {
            Some(l) => l,
            None => {
                self.phase = Phase::Finished;
                return Action::Respond(StatusCode::InternalServerError);
            },
        };
        match RequestLine::parse(line) {
            Ok(parsed) => {
                self.request_line = Some(parsed);
                self.phase = Phase::ReadingHeaders;
                Action::ReadHeaderLine
            },
            Err(e) => {
                self.phase = Phase::Finished;
                Action::Respond(e)
            },
        }
    }

    /// One header line has been read (`None`: the read failed, a 500), `elapsed_secs`
    /// seconds after the request began; see `header_step`.
    pub fn on_header_line(&mut self, line: Option<String>, elapsed_secs: u64) -> (r: Action)
        requires
            old(self)@.phase == Phase::ReadingHeaders,
            old(self)@.wf(),
        ensures
            final(self)@.wf(),
            final(self)@.phase == phase_after(r),
            final(self)@.request_line == old(self)@.request_line,
            match line {
                None => r == Action::Respond(StatusCode::InternalServerError) && final(self)@.request
                    == old(self)@.request,
                Some(l) => header_step(old(self)@.request, old(self)@.header_bytes, l@, elapsed_secs)
                    == (final(self)@.request, final(self)@.header_bytes, r),
            },
    {
        let line = match line {
            Some(l) => l,
            None => {
                self.phase = Phase::Finished;
                return Action::Respond(StatusCode::InternalServerError);
            },
        };
        if elapsed_secs > HEADER_TIMEOUT_SECS {
            self.phase = Phase::Finished;
            return Action::Respond(StatusCode::RequestTimeout);
        }
        let len = line.as_str().as_bytes().len();
        if len == 0 {
            self.phase = Phase::ReadingBody;
            return Action::ReadBody(self.request.get_body_length());
        }
        if len > TOTAL_HEADER_BYTES - self.header_bytes {
            self.phase = Phase::Finished;
            return Action::Respond(StatusCode::PayloadTooLarge);
        }
        self.header_bytes = self.header_bytes + len;
        if str_eq(line.as_str(), "\r\n") || str_eq(line.as_str(), "\n") {
            self.phase = Phase::ReadingBody;
            return Action::ReadBody(self.request.get_body_length());
        }
        let (raw_key, raw_value) = match split_once_char(line.as_str(), ':') {
            Some(parts) => parts,
            None => return Action::ReadHeaderLine,
        };
        let key = to_lowercase(trim_str(raw_key.as_str()).as_str());
        let value = to_lowercase(trim_str(raw_value.as_str()).as_str());
        if !is_valid_header_key(key.as_str()) || !is_valid_header_value(value.as_str()) {
            self.phase = Phase::Finished;
            return Action::Respond(StatusCode::BadRequest);
        }
        if str_eq(key.as_str(), "content-length") {
            let n = match self.request.parse_content_length(value.as_str()) {
                Ok(n) => n,
                Err(_) => {
                    self.phase = Phase::Finished;
                    return Action::Respond(StatusCode::BadRequest);
                },
            };
            if !self.request.is_content_length_allowed(n) {
                self.phase = Phase::Finished;
                return Action::Respond(StatusCode::PayloadTooLarge);
            }
            self.request.set_body_length(n);
        }
        self.request.insert_header(key, value);
        Action::ReadHeaderLine
    }

    /// The body has been read (`None`: the read failed). A body of the announced
    /// length in UTF-8 is answered with 200, anything else with 400.
    pub fn on_body(&mut self, bytes: Option<Vec<u8>>) -> (r: Action)
        requires
            old(self)@.phase == Phase::ReadingBody,
            old(self)@.wf(),
        ensures
            final(self)@.wf(),
            final(self)@.phase == Phase::Finished,
            final(self)@.request == old(self)@.request,
            final(self)@.request_line == old(self)@.request_line,
            match bytes {
                None => r == Action::Respond(StatusCode::BadRequest),
                Some(b) => if b@.len() == old(self)@.request.body_length && valid_utf8(b@) {
                    r == Action::Respond(StatusCode::Okay)
                } else {
                    r == Action::Respond(StatusCode::BadRequest)
                },
            },
    {
        self.phase = Phase::Finished;
        match bytes {
            None => Action::Respond(StatusCode::BadRequest),
            Some(b) => match self.request.body_from_bytes(b) {
                Ok(_) => Action::Respond(StatusCode::Okay),
                Err(_) => Action::Respond(StatusCode::BadRequest),
            },
        }
    }
}


/// The body length that the reader is asked for is always below
/// `MAX_BODY_LEN_BYTES`, and the header section read stays within
/// `TOTAL_HEADER_BYTES`.
pub proof fn lemma_header_step_bounds(v: ConnectionView, line: Seq<char>, elapsed: u64)
    requires
        v.wf(),
    ensures
        ({
            let (req, bytes, action) = header_step(v.request, v.header_bytes, line, elapsed);
            &&& bytes <= TOTAL_HEADER_BYTES
            &&& bytes >= v.header_bytes
            &&& (action matches Action::ReadBody(n) ==> n < MAX_BODY_LEN_BYTES)
        }),
{
}


/// An ASCII letter or digit, by code point.
pub open spec fn is_ascii_alphanumeric_code(u: u32) -> bool {
    (48 <= u && u <= 57) || (65 <= u && u <= 90) || (97 <= u && u <= 122)
}

proof fn lemma_ascii_ranges(d: char)
    ensures
        ('0' <= d && d <= '9') <==> (48 <= (d as u32) && (d as u32) <= 57),
        ('a' <= d && d <= 'z') <==> (97 <= (d as u32) && (d as u32) <= 122),
        ('A' <= d && d <= 'Z') <==> (65 <= (d as u32) && (d as u32) <= 90),
{
}

/// The header-name characters are exactly the ASCII letters and digits and the
/// characters of ``!#$%&'*+-.^_`|~``; so a header name is valid exactly when it is not
/// empty and made of these.
pub proof fn lemma_token_chars(c: char, k: Seq<char>)
    ensures
        is_token_char(c) <==> (is_ascii_alphanumeric_code(c as u32) || "!#$%&'*+-.^_`|~"@.contains(
            c,
        )),
        valid_header_key(k) <==> (k.len() > 0 && forall|i: int|
            0 <= i < k.len() ==> (is_ascii_alphanumeric_code(#[trigger] k[i] as u32)
                || "!#$%&'*+-.^_`|~"@.contains(k[i]))),
{
    reveal_strlit("!#$%&'*+-.^_`|~");
    let t = "!#$%&'*+-.^_`|~"@;
    assert(t =~= seq!['!', '#', '$', '%', '&', '\'', '*', '+', '-', '.', '^', '_', '`', '|', '~']);
    assert forall|d: char| #[trigger] t.contains(d) <==> (d == '!' || d == '#' || d == '$' || d
        == '%' || d == '&' || d == '\'' || d == '*' || d == '+' || d == '-' || d == '.' || d == '^'
        || d == '_' || d == '`' || d == '|' || d == '~') by {
        if d == '!' { assert(t[0] == d); }
        if d == '#' { assert(t[1] == d); }
        if d == '$' { assert(t[2] == d); }
        if d == '%' { assert(t[3] == d); }
        if d == '&' { assert(t[4] == d); }
        if d == '\'' { assert(t[5] == d); }
        if d == '*' { assert(t[6] == d); }
        if d == '+' { assert(t[7] == d); }
        if d == '-' { assert(t[8] == d); }
        if d == '.' { assert(t[9] == d); }
        if d == '^' { assert(t[10] == d); }
        if d == '_' { assert(t[11] == d); }
        if d == '`' { assert(t[12] == d); }
        if d == '|' { assert(t[13] == d); }
        if d == '~' { assert(t[14] == d); }
    }
    assert forall|d: char| #[trigger] is_token_char(d) <==> (is_ascii_alphanumeric_code(d as u32)
        || t.contains(d)) by {
        lemma_ascii_ranges(d);
    }
}

} // verus!
