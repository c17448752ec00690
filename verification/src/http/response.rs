//! Responses and their wire form.
use vstd::prelude::*;
use vstd::utf8::encode_utf8;
use crate::http::status::StatusCode;
use crate::text::{decimal, decimal_string, eq_ignore_ascii_case, str_eq_ignore_ascii_case};
use crate::text_map::TextMap;

verus! {

/// The header lines of a response, in entry order, each `name: value` and CRLF; an
/// entry named `content-length` in any case is left out, since the length is written
/// from the body.
pub open spec fn header_lines(p: Seq<(Seq<char>, Seq<char>)>) -> Seq<char>
    decreases p.len(),
{
    if p.len() == 0 {
        Seq::empty()
    } else {
        let e = p.last();
        header_lines(p.drop_last()) + if eq_ignore_ascii_case(e.0, "content-length"@) {
            Seq::empty()
        } else {
            e.0 + ": "@ + e.1 + "\r\n"@
        }
    }
}

/// The wire form of a response: status line, `Content-Length` of the body in bytes,
/// the other header lines, a blank line and the body.
pub open spec fn response_text(
    status: StatusCode,
    headers: Seq<(Seq<char>, Seq<char>)>,
    body: Seq<char>,
) -> Seq<char> {
    "HTTP/1.1 "@ + decimal(status.spec_code() as nat) + " "@ + status.spec_reason() + "\r\n"@
        + "Content-Length: "@ + decimal(encode_utf8(body).len()) + "\r\n"@ + header_lines(headers)
        + "\r\n"@ + body
}

/// A response: status, header fields and body.
pub struct Response {
    pub status: StatusCode,
    pub headers: TextMap,
    body: String,
}

impl Response {
    /// The body.
    pub closed spec fn body_view(&self) -> Seq<char> {
        self.body@
    }

    /// The status.
    pub closed spec fn status_view(&self) -> StatusCode {
        self.status
    }

    /// The header entries, in insertion order.
    pub closed spec fn header_pairs(&self) -> Seq<(Seq<char>, Seq<char>)> {
        self.headers.pairs()
    }

    /// The header fields as a map.
    pub closed spec fn header_map(&self) -> Map<Seq<char>, Seq<char>> {
        self.headers@
    }

    /// A response with status 500, no header fields and an empty body.
    pub fn new() -> (r: Self)
        ensures
            r.status_view() == StatusCode::InternalServerError,
            r.header_pairs() == Seq::<(Seq<char>, Seq<char>)>::empty(),
            r.body_view() == Seq::<char>::empty(),
    {
        Response {
            status: StatusCode::InternalServerError,
            headers: TextMap::new(),
            body: String::new(),
        }
    }

    /// Sets the status.
    pub fn set_status(&mut self, status: StatusCode)
        ensures
            final(self).status_view() == status,
            final(self).header_pairs() == old(self).header_pairs(),
            final(self).body_view() == old(self).body_view(),
    {
        self.status = status;
    }

    /// Sets a header field; a field of the same name is replaced in place.
    pub fn set_response_header(&mut self, key: String, value: String)
        ensures
            final(self).header_map() == old(self).header_map().insert(key@, value@),
            crate::text_map::has_key(old(self).header_pairs(), key@) ==> final(self).header_pairs().len()
                == old(self).header_pairs().len(),
            !crate::text_map::has_key(old(self).header_pairs(), key@) ==> final(self).header_pairs()
                == old(self).header_pairs().push((key@, value@)),
            final(self).status_view() == old(self).status_view(),
            final(self).body_view() == old(self).body_view(),
    {
        self.headers.insert(key, value);
    }

    /// Sets the body.
    pub fn set_response_body(&mut self, body: String)
        ensures
            final(self).body_view() == body@,
            final(self).status_view() == old(self).status_view(),
            final(self).header_pairs() == old(self).header_pairs(),
    {
        self.body = body;
    }

    /// The body.
    pub fn body(&self) -> (r: &String)
        ensures
            r@ == self.body_view(),
    {
        &self.body
    }

    /// The response as it is sent (see `response_text`).
    pub fn to_http_text(&self) -> (r: String)
        ensures
            r@ == response_text(self.status_view(), self.header_pairs(), self.body_view()),
    {
        let mut out = String::new();
        out.append("HTTP/1.1 ");
        let code = decimal_string(self.status.code() as u64);
        out.append(code.as_str());
        out.append(" ");
        out.append(self.status.reason_msg());
        out.append("\r\n");
        out.append("Content-Length: ");
        let body_len = self.body.as_str().as_bytes().len();
        let len_text = decimal_string(body_len as u64);
        out.append(len_text.as_str());
        out.append("\r\n");
        let ghost head = out@;
        let n = self.headers.len();
        let mut i: usize = 0;
        let ghost p = self.headers.pairs();
        assert(p.take(0) =~= Seq::<(Seq<char>, Seq<char>)>::empty());
        assert(head + Seq::<char>::empty() =~= head);
        while i < n
            invariant
                n == p.len(),
                p == self.headers.pairs(),
                i <= n,
                out@ == head + header_lines(p.take(i as int)),
            decreases n - i,
        {
            let (k, v) = self.headers.entry(i);
            assert(p.take(i + 1).drop_last() =~= p.take(i as int));
            assert(p.take(i + 1).last() == p[i as int]);
            if !str_eq_ignore_ascii_case(k.as_str(), "content-length") {
                let ghost before = out@;
                out.append(k.as_str());
                out.append(": ");
                out.append(v.as_str());
                out.append("\r\n");
                assert(out@ =~= before + (k@ + ": "@ + v@ + "\r\n"@));
            } else {
                assert(out@ =~= out@ + Seq::<char>::empty());
            }
            i += 1;
        }
        assert(p.take(n as int) =~= p);
        out.append("\r\n");
        out.append(self.body.as_str());
        out
    }
}


/// A header field named `content-length`, in any case, never reaches the wire form:
/// adding one leaves the text as it was, so the text carries exactly one length.
pub proof fn lemma_content_length_field_ignored(
    status: StatusCode,
    headers: Seq<(Seq<char>, Seq<char>)>,
    key: Seq<char>,
    value: Seq<char>,
    body: Seq<char>,
)
    requires
        eq_ignore_ascii_case(key, "content-length"@),
    ensures
        response_text(status, headers.push((key, value)), body) == response_text(
            status,
            headers,
            body,
        ),
{
    let p = headers.push((key, value));
    assert(p.drop_last() =~= headers);
    assert(header_lines(p) =~= header_lines(headers));
}

} // verus!
