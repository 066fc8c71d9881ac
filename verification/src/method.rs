//! HTTP request methods.

use vstd::prelude::*;

use crate::text::chars_of;

verus! {

/// HTTP request methods.
#[derive(Debug, Clone, Copy, Eq, PartialEq, Structural)]
pub enum Method {
    /// The GET method requests a representation of the specified resource. Requests using GET
    /// should only retrieve data.
    Get,
    /// The HEAD method asks for a response identical to that of a GET request, but without the response body.
    Head,
    /// The POST method is used to submit an entity to the specified resource, often causing a
    /// change in state or side effects on the server.
    Post,
    /// The PUT method replaces all current representations of the target resource with the request
    /// payload.
    Put,
    /// The DELETE method deletes the specified resource.
    Delete,
    /// The CONNECT method establishes a tunnel to the server identified by the target resource.
    Connect,
    /// The OPTIONS method is used to describe the communication options for the target resource.
    Options,
    /// The TRACE method performs a message loop-back test along the path to the target resource.
    Trace,
    /// The PATCH method is used to apply partial modifications to a resource.
    Patch,
}

/// An error returned when a string names no method.
#[derive(Clone, Copy, Debug, Eq, PartialEq)]
pub struct ParseError {
    _private: (),
}

/// The name of a method, as `Display` writes it.
pub open spec fn method_name(m: Method) -> Seq<char> {
    match m {
        Method::Get => seq!['G', 'E', 'T'],
        Method::Head => seq!['H', 'E', 'A', 'D'],
        Method::Post => seq!['P', 'O', 'S', 'T'],
        Method::Put => seq!['P', 'U', 'T'],
        Method::Delete => seq!['D', 'E', 'L', 'E', 'T', 'E'],
        Method::Connect => seq!['C', 'O', 'N', 'N', 'E', 'C', 'T'],
        Method::Options => seq!['O', 'P', 'T', 'I', 'O', 'N', 'S'],
        Method::Trace => seq!['T', 'R', 'A', 'C', 'E'],
        Method::Patch => seq!['P', 'A', 'T', 'C', 'H'],
    }
}

/// The method whose name is exactly `s`, if any; names are case-sensitive.
pub open spec fn method_from_name(s: Seq<char>) -> Option<Method> {
    if s == method_name(Method::Get) {
        Some(Method::Get)
    } else if s == method_name(Method::Head) {
        Some(Method::Head)
    } else if s == method_name(Method::Post) {
        Some(Method::Post)
    } else if s == method_name(Method::Put) {
        Some(Method::Put)
    } else if s == method_name(Method::Delete) {
        Some(Method::Delete)
    } else if s == method_name(Method::Connect) {
        Some(Method::Connect)
    } else if s == method_name(Method::Options) {
        Some(Method::Options)
    } else if s == method_name(Method::Trace) {
        Some(Method::Trace)
    } else if s == method_name(Method::Patch) {
        Some(Method::Patch)
    } else {
        None
    }
}

/// Law: the name of a method parses back to the same method.
pub proof fn law_method_round_trip(m: Method)
    ensures
        method_from_name(method_name(m)) == Some(m),
{
    let n = method_name(m);
    match m {
        Method::Get => {},
        Method::Head => {},
        Method::Post => {},
        Method::Put => {
            assert(n != method_name(Method::Post));
        },
        Method::Delete => {},
        Method::Connect => {},
        Method::Options => {},
        Method::Trace => {},
        Method::Patch => {
            assert(n != method_name(Method::Post));
        },
    }
}

/// Law: each method is written as its RFC 7231 method token, in upper case
/// (`GET`, `HEAD`, `POST`, ...), and a text names a method exactly when it
/// is that method's token.
pub proof fn law_method_tokens(s: Seq<char>)
    ensures
        method_name(Method::Get) == seq!['G', 'E', 'T'],
        method_name(Method::Head) == seq!['H', 'E', 'A', 'D'],
        method_name(Method::Post) == seq!['P', 'O', 'S', 'T'],
        method_name(Method::Put) == seq!['P', 'U', 'T'],
        method_name(Method::Delete) == seq!['D', 'E', 'L', 'E', 'T', 'E'],
        method_name(Method::Connect) == seq!['C', 'O', 'N', 'N', 'E', 'C', 'T'],
        method_name(Method::Options) == seq!['O', 'P', 'T', 'I', 'O', 'N', 'S'],
        method_name(Method::Trace) == seq!['T', 'R', 'A', 'C', 'E'],
        method_name(Method::Patch) == seq!['P', 'A', 'T', 'C', 'H'],
        method_from_name(s) == Some(Method::Get) <==> s == seq!['G', 'E', 'T'],
        method_from_name(s) == Some(Method::Head) <==> s == seq!['H', 'E', 'A', 'D'],
        method_from_name(s) == Some(Method::Post) <==> s == seq!['P', 'O', 'S', 'T'],
        method_from_name(s) == Some(Method::Put) <==> s == seq!['P', 'U', 'T'],
        method_from_name(s) == Some(Method::Delete) <==> s == seq!['D', 'E', 'L', 'E', 'T', 'E'],
        method_from_name(s) == Some(Method::Connect) <==> s == seq!['C', 'O', 'N', 'N', 'E', 'C', 'T'],
        method_from_name(s) == Some(Method::Options) <==> s == seq!['O', 'P', 'T', 'I', 'O', 'N', 'S'],
        method_from_name(s) == Some(Method::Trace) <==> s == seq!['T', 'R', 'A', 'C', 'E'],
        method_from_name(s) == Some(Method::Patch) <==> s == seq!['P', 'A', 'T', 'C', 'H'],
{
    lemma_method_names_distinct();
}

/// No two methods share a name.
proof fn lemma_method_names_distinct()
    ensures
        forall|a: Method, b: Method| a != b ==> method_name(a) != method_name(b),
{
    assert forall|a: Method, b: Method| a != b implies method_name(a) != method_name(b) by {
        if method_name(a) == method_name(b) {
            let n = method_name(a);
            assert(n.len() == method_name(b).len());
            assert(n[0] == method_name(b)[0]);
            assert(n[1] == method_name(b)[1]);
        }
    }
}

impl Method {
    /// The name of the method, as `Display` writes it.
    pub fn as_str(&self) -> (r: &'static str)
        ensures
            r@ == method_name(*self),
    {
        proof {
            reveal_strlit("GET");
            reveal_strlit("HEAD");
            reveal_strlit("POST");
            reveal_strlit("PUT");
            reveal_strlit("DELETE");
            reveal_strlit("CONNECT");
            reveal_strlit("OPTIONS");
            reveal_strlit("TRACE");
            reveal_strlit("PATCH");
        }
        match self {
            Method::Get => "GET",
            Method::Head => "HEAD",
            Method::Post => "POST",
            Method::Put => "PUT",
            Method::Delete => "DELETE",
            Method::Connect => "CONNECT",
            Method::Options => "OPTIONS",
            Method::Trace => "TRACE",
            Method::Patch => "PATCH",
        }
    }

    /// The name of the method as a `String`, as `to_string` gives it.
    pub fn to_string(&self) -> (r: String)
        ensures
            r@ == method_name(*self),
    {
        self.as_str().to_owned()
    }

    /// Parses a method name; names are case-sensitive.
    pub fn from_str(s: &str) -> (r: Result<Self, ParseError>)
        ensures
            match r {
                Ok(m) => method_from_name(s@) == Some(m),
                Err(_) => method_from_name(s@) is None,
            },
    {
        let all = [
            Method::Get,
            Method::Head,
            Method::Post,
            Method::Put,
            Method::Delete,
            Method::Connect,
            Method::Options,
            Method::Trace,
            Method::Patch,
        ];
        let cs = chars_of(s);
        let mut k: usize = 0;
        while k < 9
            invariant
                all@ == seq![
                    Method::Get,
                    Method::Head,
                    Method::Post,
                    Method::Put,
                    Method::Delete,
                    Method::Connect,
                    Method::Options,
                    Method::Trace,
                    Method::Patch,
                ],
                k <= 9,
                cs@ == s@,
                forall|j: int| 0 <= j < k ==> s@ != method_name(#[trigger] all@[j]),
            decreases 9 - k,
        {
            let m = all[k];
            let t = chars_of(m.as_str());
            if crate::text::eq_chars(&t, &cs) {
                return Ok(m);
            }
            k = k + 1;
        }
        Err(ParseError { _private: () })
    }
}

} // verus!
