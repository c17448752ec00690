//! Request methods.
use vstd::prelude::*;
use crate::http::status::StatusCode;
use crate::text::str_eq;

verus! {

/// The request methods of HTTP/1.1.
#[derive(Clone, Copy, Debug, PartialEq, Eq, Structural)]
pub enum Method {
    Get,
    Head,
    Post,
    Put,
    Delete,
    Connect,
    Options,
    Trace,
    Patch,
}

/// The method named by `s` (names are case-sensitive); an unknown name is
/// answered with 501 Not Implemented.
pub open spec fn method_from(s: Seq<char>) -> Result<Method, StatusCode> {
    if s == "GET"@ {
        Ok(Method::Get)
    } else if s == "HEAD"@ {
        Ok(Method::Head)
    } else if s == "POST"@ {
        Ok(Method::Post)
    } else if s == "PUT"@ {
        Ok(Method::Put)
    } else if s == "DELETE"@ {
        Ok(Method::Delete)
    } else if s == "CONNECT"@ {
        Ok(Method::Connect)
    } else if s == "OPTIONS"@ {
        Ok(Method::Options)
    } else if s == "TRACE"@ {
        Ok(Method::Trace)
    } else if s == "PATCH"@ {
        Ok(Method::Patch)
    } else {
        Err(StatusCode::NotImplemented)
    }
}

impl Method {
    /// Reads a method name.
    pub fn from_str(s: &str) -> (r: Result<Method, StatusCode>)
        ensures
            r == method_from(s@),
    {
        if str_eq(s, "GET") {
            Ok(Method::Get)
        } else if str_eq(s, "HEAD") {
            Ok(Method::Head)
        } else if str_eq(s, "POST") {
            Ok(Method::Post)
        } else if str_eq(s, "PUT") {
            Ok(Method::Put)
        } else if str_eq(s, "DELETE") {
            Ok(Method::Delete)
        } else if str_eq(s, "CONNECT") {
            Ok(Method::Connect)
        } else if str_eq(s, "OPTIONS") {
            Ok(Method::Options)
        } else if str_eq(s, "TRACE") {
            Ok(Method::Trace)
        } else if str_eq(s, "PATCH") {
            Ok(Method::Patch)
        } else {
            Err(StatusCode::NotImplemented)
        }
    }
}


/// The name of a method, as it is written in a request line.
pub open spec fn method_name(m: Method) -> Seq<char> {
    match m {
        Method::Get => "GET"@,
        Method::Head => "HEAD"@,
        Method::Post => "POST"@,
        Method::Put => "PUT"@,
        Method::Delete => "DELETE"@,
        Method::Connect => "CONNECT"@,
        Method::Options => "OPTIONS"@,
        Method::Trace => "TRACE"@,
        Method::Patch => "PATCH"@,
    }
}

/// Reading a method name gives the method of that name, and only its own name reads
/// as a method: `method_from` and `method_name` are inverse, so distinct names give
/// distinct methods.
pub proof fn lemma_method_names(m: Method, s: Seq<char>)
    ensures
        method_from(method_name(m)) == Ok::<Method, StatusCode>(m),
        method_from(s) == Ok::<Method, StatusCode>(m) ==> s == method_name(m),
        method_from(s) is Err ==> method_from(s) == Err::<Method, StatusCode>(
            StatusCode::NotImplemented,
        ),
{
    reveal_strlit("GET");
    reveal_strlit("HEAD");
    reveal_strlit("POST");
    reveal_strlit("PUT");
    reveal_strlit("DELETE");
    reveal_strlit("CONNECT");
    reveal_strlit("OPTIONS");
    reveal_strlit("TRACE");
    reveal_strlit("PATCH");
    assert("GET"@.len() == 3 && "GET"@[0] == 'G');
    assert("HEAD"@.len() == 4 && "HEAD"@[0] == 'H');
    assert("POST"@.len() == 4 && "POST"@[0] == 'P');
    assert("PUT"@.len() == 3 && "PUT"@[0] == 'P');
    assert("DELETE"@.len() == 6);
    assert("CONNECT"@.len() == 7 && "CONNECT"@[0] == 'C');
    assert("OPTIONS"@.len() == 7 && "OPTIONS"@[0] == 'O');
    assert("TRACE"@.len() == 5 && "TRACE"@[0] == 'T');
    assert("PATCH"@.len() == 5 && "PATCH"@[0] == 'P');
}

} // verus!
