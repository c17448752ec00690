//! The request line (method, target, query, version) and the request head.
use vstd::prelude::*;
use vstd::utf8::{
    decode_utf8, encode_scalar, encode_utf8, has_width_1_encoding, is_ascii_chars,
    is_ascii_chars_encode_utf8, last_continuation_byte, leading_byte_width_1,
    leading_byte_width_2, leading_byte_width_3, leading_byte_width_4,
    second_last_continuation_byte, third_last_continuation_byte, valid_utf8,
};
use crate::http::method::{method_from, Method};
use crate::http::status::StatusCode;
use crate::http::{MAX_BODY_LEN_BYTES, URI_MAX_LEN};
use crate::text::{
    decimal, digit_char, has_no_control, no_control, split_all, split_char, split_once,
    split_once_char, split_whitespace, split_whitespace_str, str_eq, views,
};
use crate::text_map::TextMap;

verus! {

// ---------------------------------------------------------------------------
// Percent-decoding of a query
// ---------------------------------------------------------------------------

/// Value of one hexadecimal digit (either case).
pub open spec fn hex_value(b: u8) -> Option<u8> {
    if 0x30 <= b && b <= 0x39 {
        Some((b - 0x30) as u8)
    } else if 0x61 <= b && b <= 0x66 {
        Some((b - 0x61 + 10) as u8)
    } else if 0x41 <= b && b <= 0x46 {
        Some((b - 0x41 + 10) as u8)
    } else {
        None
    }
}

/// The byte written as `%b1b2`: two hexadecimal digits, or a `+` sign followed by one
/// digit, as base-16 reading of an unsigned byte accepts them.
pub open spec fn hex_pair(b1: u8, b2: u8) -> Option<u8> {
    if b1 == 0x2b {
        hex_value(b2)
    } else {
        match (hex_value(b1), hex_value(b2)) {
            (Some(h), Some(l)) => Some((h * 16 + l) as u8),
            _ => None,
        }
    }
}

/// Percent-decoding of bytes: `%` and two digits stand for one byte, other bytes stand
/// for themselves; a `%` without two digits after it makes the whole input invalid.
pub open spec fn percent_decode(s: Seq<u8>) -> Option<Seq<u8>>
    decreases s.len(),
{
    if s.len() == 0 {
        Some(Seq::empty())
    } else if s[0] != 0x25 {
        match percent_decode(s.drop_first()) {
            Some(r) => Some(seq![s[0]] + r),
            None => None,
        }
    } else if s.len() < 3 {
        None
    } else {
        match (hex_pair(s[1], s[2]), percent_decode(s.skip(3))) {
            (Some(b), Some(r)) => Some(seq![b] + r),
            _ => None,
        }
    }
}

/// The text that a query stands for: its UTF-8 bytes percent-decoded, when they
/// decode and the result is UTF-8.
pub open spec fn decoded_query(q: Seq<char>) -> Option<Seq<char>> {
    match percent_decode(encode_utf8(q)) {
        Some(b) => if valid_utf8(b) {
            Some(decode_utf8(b))
        } else {
            None
        },
        None => None,
    }
}

/// Reads bytes as UTF-8 text (`String::from_utf8`): text exactly when they are UTF-8.
#[verifier::external_body]
pub(crate) fn utf8_to_string(bytes: Vec<u8>) -> (r: Option<String>)
    ensures
        r is Some <==> valid_utf8(bytes@),
        r matches Some(s) ==> s@ == decode_utf8(bytes@),
{
    String::from_utf8(bytes).ok()
}

/// The byte written by `%b1b2`, if any.
fn hex_pair_byte(b1: u8, b2: u8) -> (r: Option<u8>)
    ensures
        r == hex_pair(b1, b2),
{
    let l = match hex_digit(b2) {
        Some(l) => l,
        None => return None,
    };
    if b1 == 0x2b {
        return Some(l);
    }
    match hex_digit(b1) {
        Some(h) => Some(h * 16 + l),
        None => None,
    }
}

fn hex_digit(b: u8) -> (r: Option<u8>)
    ensures
        r == hex_value(b),
        r matches Some(v) ==> v < 16,
{
    if 0x30 <= b && b <= 0x39 {
        Some(b - 0x30)
    } else if 0x61 <= b && b <= 0x66 {
        Some(b - 0x61 + 10)
    } else if 0x41 <= b && b <= 0x46 {
        Some(b - 0x41 + 10)
    } else {
        None
    }
}

/// Percent-decodes a query; anything malformed is a 400.
pub fn decode_query(query: &str) -> (r: Result<String, StatusCode>)
    ensures
        match r {
            Ok(s) => decoded_query(query@) == Some(s@),
            Err(e) => decoded_query(query@) is None && e == StatusCode::BadRequest,
        },
{
    let bytes = query.as_bytes();
    let ghost b = bytes@;
    assert(b == encode_utf8(query@));
    let n = bytes.len();
    let mut out: Vec<u8> = Vec::new();
    let mut i: usize = 0;
    assert(b.skip(0) =~= b);
    assert(out@ + Seq::<u8>::empty() =~= out@);
    while i < n
        invariant
            n == b.len(),
            bytes@ == b,
            b == encode_utf8(query@),
            i <= n,
            match percent_decode(b.skip(i as int)) {
                Some(rest) => percent_decode(b) == Some(out@ + rest),
                None => percent_decode(b) is None,
            },
        decreases n - i,
    {
        let ghost t = b.skip(i as int);
        let c = bytes[i];
        assert(t[0] == c);
        if c != 0x25 {
            assert(t.drop_first() =~= b.skip(i + 1));
            proof {
                if let Some(rest) = percent_decode(b.skip(i + 1)) {
                    assert(out@.push(c) + rest =~= out@ + (seq![c] + rest));
                }
            }
            out.push(c);
            i += 1;
        } else {
            if n - i < 3 {
                return Err(StatusCode::BadRequest);
            }
            assert(t.skip(3) =~= b.skip(i + 3));
            assert(t[1] == bytes[i + 1] && t[2] == bytes[i + 2]);
            match hex_pair_byte(bytes[i + 1], bytes[i + 2]) {
                Some(v) => {
                    proof {
                        if let Some(rest) = percent_decode(b.skip(i + 3)) {
                            assert(out@.push(v) + rest =~= out@ + (seq![v] + rest));
                        }
                    }
                    out.push(v);
                    i += 3;
                },
                None => {
                    return Err(StatusCode::BadRequest);
                },
            }
        }
    }
    assert(b.skip(n as int) =~= Seq::<u8>::empty());
    assert(out@ + Seq::<u8>::empty() =~= out@);
    match utf8_to_string(out) {
        Some(s) => Ok(s),
        None => Err(StatusCode::BadRequest),
    }
}

/// Whether a query part is free of control characters.
pub fn is_valid_query_value(value: &str) -> (r: bool)
    ensures
        r == no_control(value@),
{
    has_no_control(value)
}

// ---------------------------------------------------------------------------
// The request line
// ---------------------------------------------------------------------------

/// Enters the `key=value` pairs in order. The first pair without `=` or with a control
/// character stops the work: the map entered so far comes back with `false`.
pub open spec fn insert_pairs(m: Map<Seq<char>, Seq<char>>, pairs: Seq<Seq<char>>) -> (
    Map<Seq<char>, Seq<char>>,
    bool,
)
    decreases pairs.len(),
{
    if pairs.len() == 0 {
        (m, true)
    } else {
        match split_once(pairs[0], '=') {
            Some((k, v)) => if no_control(k) && no_control(v) {
                insert_pairs(m.insert(k, v), pairs.drop_first())
            } else {
                (m, false)
            },
            None => (m, false),
        }
    }
}

/// What reading the query of `path` gives: the path, the query map and whether the
/// query was well formed. Without `?` nothing changes. A query with a control
/// character, or that does not decode, changes nothing and is refused. Otherwise the
/// decoded query is cut at each `&` and its pairs are entered; the path loses its
/// query only when every pair was well formed.
pub open spec fn query_outcome(path: Seq<char>, query: Map<Seq<char>, Seq<char>>) -> (
    Seq<char>,
    Map<Seq<char>, Seq<char>>,
    bool,
) {
    match split_once(path, '?') {
        None => (path, query, true),
        Some((p, q)) => if !no_control(q) {
            (path, query, false)
        } else {
            match decoded_query(q) {
                None => (path, query, false),
                Some(d) => {
                    let (m, ok) = insert_pairs(query, split_all(d, '&'));
                    if ok {
                        (p, m, true)
                    } else {
                        (path, m, false)
                    }
                },
            }
        },
    }
}

/// The abstract content of a request line.
pub ghost struct RequestLineView {
    pub method: Method,
    pub path: Seq<char>,
    pub query: Map<Seq<char>, Seq<char>>,
    pub version: Seq<char>,
}

/// What reading a request line gives. It must hold three whitespace-separated words;
/// the method must be known; the target must be shorter than `URI_MAX_LEN` bytes,
/// begin with `/` and hold no control character or space; the version must be
/// `HTTP/1.0` or `HTTP/1.1`. A malformed query does not refuse the line: the target
/// then keeps its query, and the pairs read before the fault stay in the map.
pub open spec fn request_line_outcome(line: Seq<char>) -> Result<RequestLineView, StatusCode> {
    let words = split_whitespace(line);
    if words.len() != 3 {
        Err(StatusCode::BadRequest)
    } else {
        match method_from(words[0]) {
            Err(e) => Err(e),
            Ok(method) => {
                let path = words[1];
                let version = words[2];
                if encode_utf8(path).len() >= URI_MAX_LEN {
                    Err(StatusCode::UriTooLong)
                } else if !(path.len() > 0 && path[0] == '/') || !no_control(path)
                    || path.contains(' ') {
                    Err(StatusCode::BadRequest)
                } else {
                    let (p, q, _) = query_outcome(path, Map::empty());
                    if version != "HTTP/1.0"@ && version != "HTTP/1.1"@ {
                        Err(StatusCode::HttpVersionNotSupported)
                    } else {
                        Ok(RequestLineView { method, path: p, query: q, version })
                    }
                }
            },
        }
    }
}

/// The first line of a request: method, target path, query and version.
pub struct RequestLine {
    method: Method,
    path: String,
    query: TextMap,
    version: String,
}

impl View for RequestLine {
    type V = RequestLineView;

    closed spec fn view(&self) -> RequestLineView {
        RequestLineView {
            method: self.method,
            path: self.path@,
            query: self.query@,
            version: self.version@,
        }
    }
}

/// Reads the query of the request's path into its query map (see `query_outcome`).
fn parse_query(request: &mut RequestLine) -> (r: Result<(), StatusCode>)
    ensures
        ({
            let (p, m, ok) = query_outcome(old(request)@.path, old(request)@.query);
            &&& final(request)@.path == p
            &&& final(request)@.query == m
            &&& final(request)@.method == old(request)@.method
            &&& final(request)@.version == old(request)@.version
            &&& (r is Ok <==> ok)
            &&& (r is Err ==> r == Err::<(), StatusCode>(StatusCode::BadRequest))
        }),
{
    let (path_part, query_part) = match split_once_char(request.path.as_str(), '?') {
        Some(parts) => parts,
        None => return Ok(()),
    };
    if !is_valid_query_value(query_part.as_str()) {
        return Err(StatusCode::BadRequest);
    }
    let decoded = match decode_query(query_part.as_str()) {
        Ok(d) => d,
        Err(_) => return Err(StatusCode::BadRequest),
    };
    let pairs = split_char(decoded.as_str(), '&');
    let ghost all = views(pairs@);
    let ghost m0 = request@.query;
    let n = pairs.len();
    let mut k: usize = 0;
    assert(all.skip(0) =~= all);
    while k < n
        invariant
            n == pairs@.len() == all.len(),
            all == views(pairs@),
            k <= n,
            insert_pairs(m0, all) == insert_pairs(request@.query, all.skip(k as int)),
            request@.path == old(request)@.path,
            request@.method == old(request)@.method,
            request@.version == old(request)@.version,
            decoded_query(query_part@) == Some(decoded@),
            split_once(old(request)@.path, '?') == Some((path_part@, query_part@)),
            no_control(query_part@),
            all == split_all(decoded@, '&'),
            m0 == old(request)@.query,
        decreases n - k,
    {
        let ghost rest = all.skip(k as int);
        assert(rest[0] == pairs@[k as int]@);
        assert(rest.drop_first() =~= all.skip(k + 1));
        let kv = split_once_char(pairs[k].as_str(), '=');
        match kv {
            Some((key, value)) => {
                if !is_valid_query_value(key.as_str()) || !is_valid_query_value(value.as_str()) {
                    return Err(StatusCode::BadRequest);
                }
                request.query.insert(key, value);
            },
            None => {
                return Err(StatusCode::BadRequest);
            },
        }
        k += 1;
    }
    assert(all.skip(n as int) =~= Seq::<Seq<char>>::empty());
    request.path = path_part;
    Ok(())
}

impl RequestLine {
    /// A request line for `GET /` with no query and an empty version.
    pub fn new() -> (r: Self)
        ensures
            r@.method == Method::Get,
            r@.path == "/"@,
            r@.query == Map::<Seq<char>, Seq<char>>::empty(),
            r@.version == Seq::<char>::empty(),
    {
        RequestLine {
            method: Method::Get,
            path: "/".to_owned(),
            query: TextMap::new(),
            version: String::new(),
        }
    }

    /// The method.
    pub fn get_method(&self) -> (r: &Method)
        ensures
            *r == self@.method,
    {
        &self.method
    }

    /// The target path (without its query once the query was read).
    pub fn get_path(&self) -> (r: &String)
        ensures
            r@ == self@.path,
    {
        &self.path
    }

    /// The query map.
    pub fn get_query(&self) -> (r: &TextMap)
        ensures
            r@ == self@.query,
    {
        &self.query
    }

    /// The query map, to change.
    pub fn get_query_mut(&mut self) -> (r: &mut TextMap)
        ensures
            r@ == old(self)@.query,
            final(self)@.query == final(r)@,
            final(self)@.method == old(self)@.method,
            final(self)@.path == old(self)@.path,
            final(self)@.version == old(self)@.version,
    {
        &mut self.query
    }

    /// The protocol version.
    pub fn get_version(&self) -> (r: &String)
        ensures
            r@ == self@.version,
    {
        &self.version
    }

    /// Handling of a form-encoded body: gives a fixed placeholder text.
    pub fn handle_form_urlencoded(&self, query: String) -> (r: String)
        ensures
            r@ == "Placeholder"@,
    {
        "Placeholder".to_owned()
    }

    /// Reads a request line (see `request_line_outcome`).
    pub fn parse(request_line: String) -> (r: Result<Self, StatusCode>)
        ensures
            match r {
                Ok(line) => request_line_outcome(request_line@) == Ok::<RequestLineView, StatusCode>(line@),
                Err(e) => request_line_outcome(request_line@) == Err::<RequestLineView, StatusCode>(e),
            },
    {
        let mut request = RequestLine::new();
        let words = split_whitespace_str(request_line.as_str());
        if words.len() != 3 {
            return Err(StatusCode::BadRequest);
        }
        request.method = match Method::from_str(words[0].as_str()) {
            Ok(m) => m,
            Err(e) => return Err(e),
        };
        request.path = words[1].clone();
        request.version = words[2].clone();
        if request.path.as_str().as_bytes().len() >= URI_MAX_LEN {
            return Err(StatusCode::UriTooLong);
        }
        if !starts_with_slash(request.path.as_str()) || !has_no_control_or_space(
            request.path.as_str(),
        ) {
            return Err(StatusCode::BadRequest);
        }
        let _ = parse_query(&mut request);
        if !str_eq(request.version.as_str(), "HTTP/1.0") && !str_eq(
            request.version.as_str(),
            "HTTP/1.1",
        ) {
            return Err(StatusCode::HttpVersionNotSupported);
        }
        Ok(request)
    }
}

/// Whether `s` begins with `/`.
fn starts_with_slash(s: &str) -> (r: bool)
    ensures
        r == (s@.len() > 0 && s@[0] == '/'),
{
    s.unicode_len() > 0 && s.get_char(0) == '/'
}

/// Whether `s` holds neither a control character nor a space.
fn has_no_control_or_space(s: &str) -> (r: bool)
    ensures
        r == (no_control(s@) && !s@.contains(' ')),
{
    let chars = crate::text::chars_of(s);
    let n = chars.len();
    let mut i: usize = 0;
    while i < n
        invariant
            n == chars@.len(),
            chars@ == s@,
            i <= n,
            forall|j: int| 0 <= j < i ==> !crate::text::is_control(#[trigger] s@[j]) && s@[j]
                != ' ',
        decreases n - i,
    {
        if crate::text::char_is_control(chars[i]) || chars[i] == ' ' {
            proof {
                if !crate::text::is_control(s@[i as int]) {
                    assert(s@[i as int] == ' ');
                }
            }
            return false;
        }
        i += 1;
    }
    true
}


// ---------------------------------------------------------------------------
// The request head
// ---------------------------------------------------------------------------

/// Why a text is not an unsigned 64-bit decimal number.
#[derive(Clone, Copy, Debug, PartialEq, Eq, Structural)]
pub enum IntParseError {
    /// The text is empty.
    Empty,
    /// A character is not a decimal digit (a lone `+` included).
    InvalidDigit,
    /// The number does not fit in 64 bits.
    PosOverflow,
}

/// Whether `c` is an ASCII decimal digit.
pub open spec fn is_digit(c: char) -> bool {
    '0' <= c && c <= '9'
}

/// Reads decimal digits from left to right after `acc`; the first non-digit, or the
/// first step past `u64::MAX`, is the error.
pub open spec fn digits_value(d: Seq<char>, acc: nat) -> Result<nat, IntParseError>
    decreases d.len(),
{
    if d.len() == 0 {
        Ok(acc)
    } else if !is_digit(d[0]) {
        Err(IntParseError::InvalidDigit)
    } else {
        let a = acc * 10 + ((d[0] as u32) - 48);
        if a > u64::MAX {
            Err(IntParseError::PosOverflow)
        } else {
            digits_value(d.drop_first(), a as nat)
        }
    }
}

/// Reading of an unsigned 64-bit decimal number: an optional `+`, then digits only.
pub open spec fn u64_from_decimal(s: Seq<char>) -> Result<nat, IntParseError> {
    if s.len() == 0 {
        Err(IntParseError::Empty)
    } else if s[0] == '+' {
        if s.len() == 1 {
            Err(IntParseError::InvalidDigit)
        } else {
            digits_value(s.drop_first(), 0)
        }
    } else {
        digits_value(s, 0)
    }
}

/// The abstract content of a request head.
pub ghost struct RequestView {
    pub headers: Map<Seq<char>, Seq<char>>,
    pub body_length: u64,
}

/// The header fields of a request and the length of its body.
pub struct Request {
    headers: TextMap,
    body_length: u64,
}

impl View for Request {
    type V = RequestView;

    closed spec fn view(&self) -> RequestView {
        RequestView { headers: self.headers@, body_length: self.body_length }
    }
}

impl Request {
    /// A request with no header fields and an empty body.
    pub fn new() -> (r: Self)
        ensures
            r@.headers == Map::<Seq<char>, Seq<char>>::empty(),
            r@.body_length == 0,
    {
        Request { headers: TextMap::new(), body_length: 0 }
    }

    /// Sets a header field; a field of the same name is replaced.
    pub fn insert_header(&mut self, key: String, value: String)
        ensures
            final(self)@.headers == old(self)@.headers.insert(key@, value@),
            final(self)@.body_length == old(self)@.body_length,
    {
        self.headers.insert(key, value);
    }

    /// The header fields.
    pub fn get_headers(&self) -> (r: &TextMap)
        ensures
            r@ == self@.headers,
    {
        &self.headers
    }

    /// Reads a `Content-Length` value as an unsigned 64-bit decimal number.
    pub fn parse_content_length(&self, value: &str) -> (r: Result<u64, IntParseError>)
        ensures
            match r {
                Ok(n) => u64_from_decimal(value@) == Ok::<nat, IntParseError>(n as nat),
                Err(e) => u64_from_decimal(value@) == Err::<nat, IntParseError>(e),
            },
    {
        let chars = crate::text::chars_of(value);
        let n = chars.len();
        if n == 0 {
            return Err(IntParseError::Empty);
        }
        let mut i: usize = 0;
        if chars[0] == '+' {
            if n == 1 {
                return Err(IntParseError::InvalidDigit);
            }
            i = 1;
        }
        let ghost d = value@.skip(i as int);
        assert(d == value@.drop_first() || d == value@) by {
            assert(value@.skip(0) =~= value@);
            assert(value@.skip(1) =~= value@.drop_first());
        }
        assert(u64_from_decimal(value@) == digits_value(d, 0));
        let mut acc: u64 = 0;
        while i < n
            invariant
                n == chars@.len(),
                chars@ == value@,
                i <= n,
                digits_value(d, 0) == digits_value(value@.skip(i as int), acc as nat),
                u64_from_decimal(value@) == digits_value(d, 0),
            decreases n - i,
        {
            let c = chars[i];
            let ghost t = value@.skip(i as int);
            assert(t[0] == c);
            assert(t.drop_first() =~= value@.skip(i + 1));
            if !('0' <= c && c <= '9') {
                return Err(IntParseError::InvalidDigit);
            }
            let v = (c as u32 - 48) as u64;
            let next = match acc.checked_mul(10) {
                Some(m) => match m.checked_add(v) {
                    Some(a) => a,
                    None => return Err(IntParseError::PosOverflow),
                },
                None => {
                    assert(acc * 10 + v > u64::MAX);
                    return Err(IntParseError::PosOverflow);
                },
            };
            acc = next;
            i += 1;
        }
        assert(value@.skip(n as int) =~= Seq::<char>::empty());
        Ok(acc)
    }

    /// Whether a body of `body_length` bytes is accepted: it must be shorter than
    /// `MAX_BODY_LEN_BYTES`.
    pub fn is_content_length_allowed(&self, body_length: u64) -> (r: bool)
        ensures
            r == (body_length < MAX_BODY_LEN_BYTES),
    {
        body_length < MAX_BODY_LEN_BYTES
    }

    /// Sets the length of the body.
    pub fn set_body_length(&mut self, body_length: u64)
        ensures
            final(self)@.body_length == body_length,
            final(self)@.headers == old(self)@.headers,
    {
        self.body_length = body_length;
    }

    /// The length of the body.
    pub fn get_body_length(&self) -> (r: u64)
        ensures
            r == self@.body_length,
    {
        self.body_length
    }

    /// The body, from the bytes read for it: exactly `body_length` bytes of UTF-8, else
    /// a 400.
    pub fn body_from_bytes(&self, bytes: Vec<u8>) -> (r: Result<String, StatusCode>)
        ensures
            match r {
                Ok(s) => bytes@.len() == self@.body_length && valid_utf8(bytes@) && s@
                    == decode_utf8(bytes@),
                Err(e) => e == StatusCode::BadRequest && (bytes@.len() != self@.body_length
                    || !valid_utf8(bytes@)),
            },
    {
        if bytes.len() as u64 != self.body_length {
            return Err(StatusCode::BadRequest);
        }
        match utf8_to_string(bytes) {
            Some(s) => Ok(s),
            None => Err(StatusCode::BadRequest),
        }
    }
}


/// Reading digits is a left fold: appending one character reads it after the rest.
proof fn lemma_digits_value_push(d: Seq<char>, c: char, acc: nat)
    ensures
        digits_value(d.push(c), acc) == match digits_value(d, acc) {
            Ok(a) => digits_value(seq![c], a),
            Err(e) => Err(e),
        },
    decreases d.len(),
{
    if d.len() == 0 {
        assert(d.push(c) =~= seq![c]);
    } else {
        assert(d.push(c)[0] == d[0]);
        assert(d.push(c).drop_first() =~= d.drop_first().push(c));
        if is_digit(d[0]) {
            let a = acc * 10 + ((d[0] as u32) - 48);
            if a <= u64::MAX {
                lemma_digits_value_push(d.drop_first(), c, a as nat);
            }
        }
    }
}

proof fn lemma_digit_char(d: nat)
    requires
        d < 10,
    ensures
        is_digit(digit_char(d)),
        (digit_char(d) as u32) - 48 == d,
{
    let u: u32 = (d + 48) as u32;
    vstd::utf8::char_u32_cast(u as char, u);
}

proof fn lemma_digits_of_decimal(n: nat)
    requires
        n <= u64::MAX,
    ensures
        digits_value(decimal(n), 0) == Ok::<nat, IntParseError>(n),
        decimal(n).len() > 0,
        is_digit(decimal(n)[0]),
    decreases n,
{
    if n < 10 {
        lemma_digit_char(n);
        assert(decimal(n) =~= seq![digit_char(n)]);
        assert(seq![digit_char(n)].drop_first() =~= Seq::<char>::empty());
    } else {
        lemma_digits_of_decimal(n / 10);
        lemma_digit_char(n % 10);
        lemma_digits_value_push(decimal(n / 10), digit_char(n % 10), 0);
        let m = n / 10;
        let c = digit_char(n % 10);
        assert(seq![c].drop_first() =~= Seq::<char>::empty());
        assert(m * 10 + n % 10 == n);
        assert(digits_value(seq![c], m) == digits_value(Seq::<char>::empty(), n));
        assert(decimal(n) == decimal(m).push(c));
        assert(decimal(n)[0] == decimal(m)[0]);
    }
}

/// A number written in decimal reads back as itself: the `Content-Length` that a
/// response carries is what `parse_content_length` gives back.
pub proof fn lemma_decimal_reads_back(n: u64)
    ensures
        u64_from_decimal(decimal(n as nat)) == Ok::<nat, IntParseError>(n as nat),
{
    lemma_digits_of_decimal(n as nat);
}


// ---------------------------------------------------------------------------
// Laws of query decoding
// ---------------------------------------------------------------------------

proof fn lemma_percent_decode_plain(b: Seq<u8>)
    requires
        forall|i: int| 0 <= i < b.len() ==> b[i] != 0x25,
    ensures
        percent_decode(b) == Some(b),
    decreases b.len(),
{
    if b.len() > 0 {
        lemma_percent_decode_plain(b.drop_first());
        assert(seq![b[0]] + b.drop_first() =~= b);
    }
}

proof fn lemma_scalar_bytes_not_percent(c: char)
    requires
        c != '%',
    ensures
        forall|i: int| 0 <= i < encode_scalar(c as u32).len() ==> #[trigger] encode_scalar(
            c as u32,
        )[i] != 0x25,
{
    let s = c as u32;
    assert(has_width_1_encoding(s) && s != 0x25 ==> leading_byte_width_1(s) != 0x25)
        by (bit_vector);
    assert(leading_byte_width_2(s) >= 0x80 && leading_byte_width_3(s) >= 0x80
        && leading_byte_width_4(s) >= 0x80) by (bit_vector);
    assert(last_continuation_byte(s) >= 0x80 && second_last_continuation_byte(s) >= 0x80
        && third_last_continuation_byte(s) >= 0x80) by (bit_vector);
}

proof fn lemma_encode_without_percent(q: Seq<char>)
    requires
        !q.contains('%'),
    ensures
        forall|i: int| 0 <= i < encode_utf8(q).len() ==> encode_utf8(q)[i] != 0x25,
    decreases q.len(),
{
    if q.len() > 0 {
        assert(q[0] != '%');
        lemma_scalar_bytes_not_percent(q[0]);
        let rest = q.drop_first();
        assert(!rest.contains('%')) by {
            if rest.contains('%') {
                let j = choose|j: int| 0 <= j < rest.len() && rest[j] == '%';
                assert(q[j + 1] == '%');
            }
        }
        lemma_encode_without_percent(rest);
        let a = encode_scalar(q[0] as u32);
        let e = encode_utf8(q);
        assert(e == a + encode_utf8(rest));
        assert forall|i: int| 0 <= i < e.len() implies e[i] != 0x25 by {
            if i < a.len() {
                assert(e[i] == a[i]);
            } else {
                assert(e[i] == encode_utf8(rest)[i - a.len()]);
            }
        }
    }
}

/// A query without `%` decodes to itself.
pub proof fn lemma_plain_query_decodes_to_itself(q: Seq<char>)
    requires
        !q.contains('%'),
    ensures
        decoded_query(q) == Some(q),
{
    lemma_encode_without_percent(q);
    lemma_percent_decode_plain(encode_utf8(q));
    vstd::utf8::encode_utf8_valid_utf8(q);
    vstd::utf8::encode_utf8_decode_utf8(q);
}

/// The uppercase hexadecimal digit for `d < 16`.
pub open spec fn hex_digit_byte(d: nat) -> u8 {
    if d < 10 {
        (0x30 + d) as u8
    } else {
        (0x41 + d - 10) as u8
    }
}

/// Every byte written as `%` and two uppercase hexadecimal digits.
pub open spec fn percent_encode_bytes(b: Seq<u8>) -> Seq<u8>
    decreases b.len(),
{
    if b.len() == 0 {
        Seq::empty()
    } else {
        seq![0x25u8, hex_digit_byte((b[0] / 16) as nat), hex_digit_byte((b[0] % 16) as nat)]
            + percent_encode_bytes(b.drop_first())
    }
}

/// The text `q` with every byte of its UTF-8 form percent-encoded.
pub open spec fn percent_encoded(q: Seq<char>) -> Seq<char> {
    percent_encode_bytes(encode_utf8(q)).map_values(|x: u8| x as char)
}

proof fn lemma_percent_encode_bytes(b: Seq<u8>)
    ensures
        percent_decode(percent_encode_bytes(b)) == Some(b),
        forall|i: int| 0 <= i < percent_encode_bytes(b).len() ==> percent_encode_bytes(b)[i]
            < 0x80,
    decreases b.len(),
{
    if b.len() > 0 {
        let x = b[0];
        let e = percent_encode_bytes(b);
        let r = percent_encode_bytes(b.drop_first());
        lemma_percent_encode_bytes(b.drop_first());
        assert(e.skip(3) =~= r);
        assert(x / 16 * 16 + x % 16 == x);
        assert(hex_pair(e[1], e[2]) == Some(x));
        assert(seq![x] + b.drop_first() =~= b);
        assert forall|i: int| 0 <= i < e.len() implies e[i] < 0x80 by {
            if i >= 3 {
                assert(e[i] == r[i - 3]);
            }
        }
    }
}

/// Percent-encoding every byte of a text and decoding gives the text back.
pub proof fn lemma_percent_encoding_round_trip(q: Seq<char>)
    ensures
        decoded_query(percent_encoded(q)) == Some(q),
{
    let b = encode_utf8(q);
    let p = percent_encode_bytes(b);
    let chars = percent_encoded(q);
    lemma_percent_encode_bytes(b);
    assert(is_ascii_chars(chars)) by {
        assert forall|i: int| 0 <= i < chars.len() implies '\0' <= #[trigger] chars[i] <= '\u{7f}' by {
            assert(chars[i] == p[i] as char);
        }
    }
    is_ascii_chars_encode_utf8(chars);
    assert(encode_utf8(chars) =~= p) by {
        assert forall|i: int| 0 <= i < p.len() implies encode_utf8(chars)[i] == p[i] by {
            assert(chars[i] == p[i] as char);
        }
    }
    vstd::utf8::encode_utf8_valid_utf8(q);
    vstd::utf8::encode_utf8_decode_utf8(q);
}


// ---------------------------------------------------------------------------
// Laws of request-line reading
// ---------------------------------------------------------------------------

/// Every key and value of `m` is free of control characters.
pub open spec fn clean_map(m: Map<Seq<char>, Seq<char>>) -> bool {
    forall|k: Seq<char>| #[trigger] m.contains_key(k) ==> no_control(k) && no_control(m[k])
}

proof fn lemma_insert_pairs_clean(m: Map<Seq<char>, Seq<char>>, pairs: Seq<Seq<char>>)
    requires
        clean_map(m),
    ensures
        clean_map(insert_pairs(m, pairs).0),
    decreases pairs.len(),
{
    if pairs.len() > 0 {
        if let Some((k, v)) = split_once(pairs[0], '=') {
            if no_control(k) && no_control(v) {
                let m2 = m.insert(k, v);
                assert(clean_map(m2));
                lemma_insert_pairs_clean(m2, pairs.drop_first());
            }
        }
    }
}

/// The UTF-8 form of a prefix is no longer than that of the whole text.
proof fn lemma_encode_prefix_len(s: Seq<char>, i: int)
    requires
        0 <= i <= s.len(),
    ensures
        encode_utf8(s.take(i)).len() <= encode_utf8(s).len(),
    decreases s.len(),
{
    if i == 0 {
        assert(s.take(0) =~= Seq::<char>::empty());
    } else {
        let t = s.take(i);
        assert(t[0] == s[0]);
        assert(t.drop_first() =~= s.drop_first().take(i - 1));
        lemma_encode_prefix_len(s.drop_first(), i - 1);
    }
}

/// What every accepted request line gives: it holds three words; the method is the
/// one the first word names; the version is the third word, `HTTP/1.0` or
/// `HTTP/1.1`; the path is the second word or its part before the first `?`, begins
/// with `/`, holds no control character or space and is shorter than `URI_MAX_LEN`
/// bytes; and the query map's keys and values hold no control character.
pub proof fn lemma_parsed_request_line(line: Seq<char>)
    ensures
        request_line_outcome(line) matches Ok(v) ==> {
            let words = split_whitespace(line);
            &&& words.len() == 3
            &&& method_from(words[0]) == Ok::<Method, StatusCode>(v.method)
            &&& v.version == words[2]
            &&& (v.path == words[1] || (split_once(words[1], '?') matches Some((p, q)) && v.path == p))
            &&& v.path.len() > 0 && v.path[0] == '/'
            &&& encode_utf8(v.path).len() < URI_MAX_LEN
            &&& no_control(v.path)
            &&& !v.path.contains(' ')
            &&& (v.version == "HTTP/1.0"@ || v.version == "HTTP/1.1"@)
            &&& clean_map(v.query)
        },
{
    if let Ok(v) = request_line_outcome(line) {
        let path = split_whitespace(line)[1];
        let empty = Map::<Seq<char>, Seq<char>>::empty();
        assert(clean_map(empty));
        match split_once(path, '?') {
            None => {},
            Some((p, q)) => {
                let i = choose|i: int| crate::text::first_at(path, '?', i);
                assert(p == path.take(i));
                assert(i > 0);
                assert(p[0] == '/');
                lemma_encode_prefix_len(path, i);
                assert forall|j: int| 0 <= j < p.len() implies !crate::text::is_control(
                    #[trigger] p[j],
                ) by {
                    assert(p[j] == path[j]);
                }
                assert(!p.contains(' ')) by {
                    if p.contains(' ') {
                        let j = choose|j: int| 0 <= j < p.len() && p[j] == ' ';
                        assert(path[j] == ' ');
                    }
                }
                if no_control(q) {
                    if let Some(d) = decoded_query(q) {
                        lemma_insert_pairs_clean(empty, split_all(d, '&'));
                    }
                }
            },
        }
    }
}


// ---------------------------------------------------------------------------
// Laws of query decoding, in bytes
// ---------------------------------------------------------------------------

/// Number of `%` bytes in `b`.
pub open spec fn count_percent(b: Seq<u8>) -> nat
    decreases b.len(),
{
    if b.len() == 0 {
        0
    } else {
        (if b[0] == 0x25 {
            1nat
        } else {
            0nat
        }) + count_percent(b.drop_first())
    }
}

/// Every `%` in `b` is followed by two hexadecimal digits.
pub open spec fn well_escaped(b: Seq<u8>) -> bool {
    forall|i: int|
        0 <= i < b.len() && #[trigger] b[i] == 0x25 ==> i + 2 < b.len() && hex_value(b[i + 1])
            is Some && hex_value(b[i + 2]) is Some
}

proof fn lemma_well_escaped_decodes(b: Seq<u8>)
    requires
        well_escaped(b),
    ensures
        percent_decode(b) is Some,
    decreases b.len(),
{
    if b.len() > 0 {
        if b[0] != 0x25 {
            let r = b.drop_first();
            assert forall|i: int| 0 <= i < r.len() && #[trigger] r[i] == 0x25 implies i + 2
                < r.len() && hex_value(r[i + 1]) is Some && hex_value(r[i + 2]) is Some by {
                assert(b[i + 1] == r[i]);
                assert(b[i + 2] == r[i + 1] && b[i + 3] == r[i + 2]);
            }
            lemma_well_escaped_decodes(r);
        } else {
            let r = b.skip(3);
            assert(b[0] == 0x25);
            assert(hex_value(b[1]) is Some && hex_value(b[2]) is Some);
            assert(hex_pair(b[1], b[2]) is Some);
            assert forall|i: int| 0 <= i < r.len() && #[trigger] r[i] == 0x25 implies i + 2
                < r.len() && hex_value(r[i + 1]) is Some && hex_value(r[i + 2]) is Some by {
                assert(b[i + 3] == r[i]);
                assert(b[i + 4] == r[i + 1] && b[i + 5] == r[i + 2]);
            }
            lemma_well_escaped_decodes(r);
        }
    }
}

proof fn lemma_percent_decode_len(b: Seq<u8>)
    ensures
        percent_decode(b) matches Some(d) ==> d.len() + 2 * count_percent(b) == b.len(),
    decreases b.len(),
{
    if b.len() > 0 {
        if b[0] != 0x25 {
            lemma_percent_decode_len(b.drop_first());
        } else if b.len() >= 3 {
            lemma_percent_decode_len(b.skip(3));
            if let Some(x) = hex_pair(b[1], b[2]) {
                let b1 = b.drop_first();
                let b2 = b1.drop_first();
                assert(b2 =~= b.skip(2));
                assert(b2.drop_first() =~= b.skip(3));
                assert(b1[0] == b[1] && b2[0] == b[2]);
                assert(b[1] != 0x25 && b[2] != 0x25);
                assert(count_percent(b1) == count_percent(b2));
                assert(count_percent(b2) == count_percent(b.skip(3)));
            }
        }
    }
}

/// Query decoding in bytes: a decoded text's UTF-8 form is the percent-decoding of
/// the query's UTF-8 form, shorter by two bytes per escape; and when every `%` of
/// the query is followed by two hexadecimal digits, the bytes decode, and the query
/// is accepted exactly when they are UTF-8.
pub proof fn lemma_decoded_query_bytes(q: Seq<char>)
    ensures
        decoded_query(q) matches Some(s) ==> {
            &&& percent_decode(encode_utf8(q)) == Some(encode_utf8(s))
            &&& encode_utf8(s).len() + 2 * count_percent(encode_utf8(q)) == encode_utf8(q).len()
        },
        well_escaped(encode_utf8(q)) ==> (percent_decode(encode_utf8(q)) matches Some(d)
            && decoded_query(q) == if valid_utf8(d) {
            Some(decode_utf8(d))
        } else {
            None
        }),
{
    let b = encode_utf8(q);
    lemma_percent_decode_len(b);
    if let Some(d) = percent_decode(b) {
        if valid_utf8(d) {
            vstd::utf8::decode_utf8_encode_utf8(d);
        }
    }
    if well_escaped(b) {
        lemma_well_escaped_decodes(b);
    }
}

// ---------------------------------------------------------------------------
// Laws of query reading
// ---------------------------------------------------------------------------

/// A `key=value` piece that is entered: it holds `=`, and neither side holds a
/// control character.
pub open spec fn pair_ok(seg: Seq<char>) -> bool {
    split_once(seg, '=') matches Some((k, v)) && no_control(k) && no_control(v)
}

/// A query text is accepted: it holds no control character, it decodes, and every
/// piece of the decoded text between `&` is a well-formed `key=value`.
pub open spec fn query_accepted(q: Seq<char>) -> bool {
    &&& no_control(q)
    &&& match decoded_query(q) {
        Some(d) => forall|i: int|
            0 <= i < split_all(d, '&').len() ==> pair_ok(#[trigger] split_all(d, '&')[i]),
        None => false,
    }
}

/// Entering pairs succeeds exactly when every piece is well formed, and it only adds
/// keys.
pub proof fn lemma_insert_pairs(m: Map<Seq<char>, Seq<char>>, pairs: Seq<Seq<char>>)
    ensures
        insert_pairs(m, pairs).1 <==> forall|i: int| 0 <= i < pairs.len() ==> pair_ok(
            #[trigger] pairs[i],
        ),
        forall|k: Seq<char>| #[trigger] m.contains_key(k) ==> insert_pairs(m, pairs).0.contains_key(
            k,
        ),
    decreases pairs.len(),
{
    if pairs.len() > 0 {
        let rest = pairs.drop_first();
        if let Some((k, v)) = split_once(pairs[0], '=') {
            if no_control(k) && no_control(v) {
                lemma_insert_pairs(m.insert(k, v), rest);
                assert forall|j: Seq<char>| #[trigger] m.contains_key(j) implies insert_pairs(
                    m,
                    pairs,
                ).0.contains_key(j) by {
                    assert(m.insert(k, v).contains_key(j));
                }
                if forall|i: int| 0 <= i < rest.len() ==> pair_ok(#[trigger] rest[i]) {
                    assert forall|i: int| 0 <= i < pairs.len() implies pair_ok(#[trigger] pairs[i]) by {
                        if i > 0 {
                            assert(pairs[i] == rest[i - 1]);
                        }
                    }
                } else {
                    let j = choose|j: int| 0 <= j < rest.len() && !pair_ok(#[trigger] rest[j]);
                    assert(pairs[j + 1] == rest[j]);
                }
                return;
            }
        }
        assert(!pair_ok(pairs[0]));
    }
}

/// A path without `?` leaves path and map as they are, and the query counts as read.
pub proof fn lemma_query_outcome_without_query(path: Seq<char>, m: Map<Seq<char>, Seq<char>>)
    requires
        !path.contains('?'),
    ensures
        query_outcome(path, m) == (path, m, true),
{
    assert forall|i: int| !crate::text::first_at(path, '?', i) by {
        if 0 <= i < path.len() && path[i] == '?' {
            assert(path.contains('?'));
        }
    }
}

/// Reading the query of a path `p?q`: it is accepted exactly when `q` holds no
/// control character, decodes to `d`, and every piece of `d` between `&` is a
/// well-formed `key=value`; then the path becomes `p` and the map gets the pairs in
/// order (a later equal key wins). When it is refused the path is kept. Either way the
/// map only gains keys.
pub proof fn lemma_query_outcome(path: Seq<char>, m: Map<Seq<char>, Seq<char>>)
    ensures
        ({
            let (p2, m2, ok) = query_outcome(path, m);
            &&& forall|k: Seq<char>| #[trigger] m.contains_key(k) ==> m2.contains_key(k)
            &&& !ok ==> p2 == path
            &&& split_once(path, '?') matches Some((p, q)) ==> {
                &&& (ok <==> query_accepted(q))
                &&& ok ==> p2 == p && m2 == match decoded_query(q) {
                    Some(d) => insert_pairs(m, split_all(d, '&')).0,
                    None => m,
                }
            }
        }),
{
    if let Some((p, q)) = split_once(path, '?') {
        if no_control(q) {
            if let Some(d) = decoded_query(q) {
                lemma_insert_pairs(m, split_all(d, '&'));
            }
        }
    }
}


// ---------------------------------------------------------------------------
// Laws of hexadecimal digits
// ---------------------------------------------------------------------------

/// The hexadecimal digit for `v < 16`, lowercase.
pub open spec fn lower_hex(v: nat) -> u8 {
    "0123456789abcdef"@[v as int] as u8
}

/// The hexadecimal digit for `v < 16`, uppercase.
pub open spec fn upper_hex(v: nat) -> u8 {
    "0123456789ABCDEF"@[v as int] as u8
}

/// ASCII uppercase of one byte.
pub open spec fn upper_byte(b: u8) -> u8 {
    if 0x61 <= b && b <= 0x7a {
        (b - 32) as u8
    } else {
        b
    }
}

proof fn lemma_hex_tables(v: nat)
    requires
        v < 16,
    ensures
        hex_value(lower_hex(v)) == Some(v as u8),
        hex_value(upper_hex(v)) == Some(v as u8),
        upper_byte(lower_hex(v)) == upper_hex(v),
        v < 10 ==> lower_hex(v) == 0x30 + v && upper_hex(v) == 0x30 + v,
        v >= 10 ==> lower_hex(v) == 0x61 + v - 10 && upper_hex(v) == 0x41 + v - 10,
{
    reveal_strlit("0123456789abcdef");
    reveal_strlit("0123456789ABCDEF");
    let lo = "0123456789abcdef"@;
    let up = "0123456789ABCDEF"@;
    assert(lo =~= seq!['0', '1', '2', '3', '4', '5', '6', '7', '8', '9', 'a', 'b', 'c', 'd', 'e', 'f']);
    assert(up =~= seq!['0', '1', '2', '3', '4', '5', '6', '7', '8', '9', 'A', 'B', 'C', 'D', 'E', 'F']);
}

/// A hexadecimal digit is one of the sixteen digits, in either case, and reads as its
/// place among them: `hex_value` is defined exactly on these 22 bytes.
pub proof fn lemma_hex_digits(v: nat, b: u8)
    ensures
        v < 16 ==> hex_value(lower_hex(v)) == Some(v as u8) && hex_value(upper_hex(v)) == Some(
            v as u8,
        ),
        hex_value(b) matches Some(x) ==> x < 16 && (b == lower_hex(x as nat) || b == upper_hex(
            x as nat,
        )),
{
    if v < 16 {
        lemma_hex_tables(v);
    }
    if let Some(x) = hex_value(b) {
        lemma_hex_tables(x as nat);
    }
}

/// An escape reads the same in either case: `%3d` and `%3D` give the same byte.
pub proof fn lemma_hex_pair_case_insensitive(b1: u8, b2: u8)
    ensures
        hex_pair(b1, b2) == hex_pair(upper_byte(b1), upper_byte(b2)),
{
}

/// Two digits, in either case, read as the byte they write: `%hl` with `h` the high
/// and `l` the low half of `x` gives `x`.
pub proof fn lemma_hex_pair_reads_byte(x: u8)
    ensures
        hex_pair(lower_hex((x / 16) as nat), lower_hex((x % 16) as nat)) == Some(x),
        hex_pair(upper_hex((x / 16) as nat), upper_hex((x % 16) as nat)) == Some(x),
{
    lemma_hex_tables((x / 16) as nat);
    lemma_hex_tables((x % 16) as nat);
    reveal_strlit("0123456789abcdef");
    reveal_strlit("0123456789ABCDEF");
    assert("0123456789abcdef"@ =~= seq!['0', '1', '2', '3', '4', '5', '6', '7', '8', '9', 'a', 'b', 'c', 'd', 'e', 'f']);
    assert("0123456789ABCDEF"@ =~= seq!['0', '1', '2', '3', '4', '5', '6', '7', '8', '9', 'A', 'B', 'C', 'D', 'E', 'F']);
    assert(x / 16 * 16 + x % 16 == x);
}


/// The key of a `key=value` piece: what precedes its first `=`.
pub open spec fn pair_key(seg: Seq<char>) -> Seq<char> {
    match split_once(seg, '=') {
        Some((k, _)) => k,
        None => seg,
    }
}

/// The value of a `key=value` piece: what follows its first `=`.
pub open spec fn pair_value(seg: Seq<char>) -> Seq<char> {
    match split_once(seg, '=') {
        Some((_, v)) => v,
        None => Seq::empty(),
    }
}

/// What entering well-formed pieces gives: the keys are those of the map before and
/// those of the pieces; each piece's value, empty or not, is stored under its key
/// unless a later piece has the same key; and a key that no piece names keeps its
/// value.
pub proof fn lemma_insert_pairs_content(m: Map<Seq<char>, Seq<char>>, pairs: Seq<Seq<char>>)
    requires
        forall|i: int| 0 <= i < pairs.len() ==> pair_ok(#[trigger] pairs[i]),
    ensures
        insert_pairs(m, pairs).1,
        forall|k: Seq<char>| #[trigger]
            insert_pairs(m, pairs).0.contains_key(k) <==> (m.contains_key(k) || exists|i: int|
                0 <= i < pairs.len() && pair_key(#[trigger] pairs[i]) == k),
        forall|i: int|
            0 <= i < pairs.len() && (forall|j: int|
                i < j < pairs.len() ==> pair_key(#[trigger] pairs[j]) != pair_key(pairs[i]))
                ==> insert_pairs(m, pairs).0[pair_key(#[trigger] pairs[i])] == pair_value(
                pairs[i],
            ),
        forall|k: Seq<char>|
            m.contains_key(k) && (forall|i: int| 0 <= i < pairs.len() ==> pair_key(
                #[trigger] pairs[i],
            ) != k) ==> #[trigger] insert_pairs(m, pairs).0[k] == m[k],
    decreases pairs.len(),
{
    if pairs.len() > 0 {
        let rest = pairs.drop_first();
        let k0 = pair_key(pairs[0]);
        let v0 = pair_value(pairs[0]);
        assert(pair_ok(pairs[0]));
        let m2 = m.insert(k0, v0);
        assert forall|i: int| 0 <= i < rest.len() implies pair_ok(#[trigger] rest[i]) by {
            assert(rest[i] == pairs[i + 1]);
        }
        lemma_insert_pairs_content(m2, rest);
        let r = insert_pairs(m, pairs).0;
        assert(r == insert_pairs(m2, rest).0);
        assert forall|k: Seq<char>| #[trigger] r.contains_key(k) <==> (m.contains_key(k)
            || exists|i: int| 0 <= i < pairs.len() && pair_key(#[trigger] pairs[i]) == k) by {
            if exists|i: int| 0 <= i < pairs.len() && pair_key(#[trigger] pairs[i]) == k {
                let i = choose|i: int| 0 <= i < pairs.len() && pair_key(#[trigger] pairs[i]) == k;
                if i > 0 {
                    assert(pair_key(rest[i - 1]) == k);
                }
            }
            if exists|i: int| 0 <= i < rest.len() && pair_key(#[trigger] rest[i]) == k {
                let i = choose|i: int| 0 <= i < rest.len() && pair_key(#[trigger] rest[i]) == k;
                assert(pair_key(pairs[i + 1]) == k);
            }
        }
        assert forall|i: int|
            0 <= i < pairs.len() && (forall|j: int|
                i < j < pairs.len() ==> pair_key(#[trigger] pairs[j]) != pair_key(pairs[i]))
                implies r[pair_key(#[trigger] pairs[i])] == pair_value(pairs[i]) by {
            if i > 0 {
                assert(rest[i - 1] == pairs[i]);
                assert forall|j: int| i - 1 < j < rest.len() implies pair_key(#[trigger] rest[j])
                    != pair_key(rest[i - 1]) by {
                    assert(rest[j] == pairs[j + 1]);
                }
            } else {
                assert forall|j: int| 0 <= j < rest.len() implies pair_key(#[trigger] rest[j])
                    != k0 by {
                    assert(rest[j] == pairs[j + 1]);
                }
            }
        }
        assert forall|k: Seq<char>|
            m.contains_key(k) && (forall|i: int| 0 <= i < pairs.len() ==> pair_key(
                #[trigger] pairs[i],
            ) != k) implies #[trigger] r[k] == m[k] by {
            assert(pair_key(pairs[0]) != k);
            assert forall|i: int| 0 <= i < rest.len() implies pair_key(#[trigger] rest[i]) != k by {
                assert(rest[i] == pairs[i + 1]);
            }
        }
    }
}


/// An accepted query `p?q` puts every `key=value` piece of its decoded text into the
/// map, an empty value too: each key of a piece is a key of the result, with the value
/// of the last piece that names it; the path becomes `p`.
pub proof fn lemma_accepted_query_pairs(path: Seq<char>, m: Map<Seq<char>, Seq<char>>)
    ensures
        match split_once(path, '?') {
            None => true,
            Some((p, q)) => query_accepted(q) ==> {
                let pairs = split_all(decoded_query(q)->0, '&');
                let (p2, m2, ok) = query_outcome(path, m);
                &&& ok && p2 == p
                &&& forall|i: int|
                    0 <= i < pairs.len() ==> m2.contains_key(pair_key(#[trigger] pairs[i]))
                &&& forall|i: int|
                    0 <= i < pairs.len() && (forall|j: int|
                        i < j < pairs.len() ==> pair_key(#[trigger] pairs[j]) != pair_key(
                            pairs[i],
                        )) ==> m2[pair_key(#[trigger] pairs[i])] == pair_value(pairs[i])
            },
        },
{
    if let Some((p, q)) = split_once(path, '?') {
        if query_accepted(q) {
            let d = decoded_query(q)->0;
            let pairs = split_all(d, '&');
            lemma_query_outcome(path, m);
            lemma_insert_pairs_content(m, pairs);
            assert forall|i: int| 0 <= i < pairs.len() implies query_outcome(path, m).1.contains_key(
                pair_key(#[trigger] pairs[i]),
            ) by {
                assert(insert_pairs(m, pairs).0.contains_key(pair_key(pairs[i])));
            }
        }
    }
}

} // verus!
