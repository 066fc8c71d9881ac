//! Credentials to authenticate a user agent with a server.

use vstd::prelude::*;

use crate::auth::{scheme_from_name, scheme_name, AuthenticationScheme};
use crate::errors::{AuthError, Error, HeaderError};
use crate::headers::{
    constants, last_value, last_value_of, Header, HeaderName, HeaderValue, Headers,
};
use crate::text::{
    all_ascii, chars_of, find, find_from, lemma_find_some, push_char, push_str, split_once,
    string_from_chars,
};

verus! {

/// What parsing an `Authorization` value gives: a scheme, a space, then the
/// credentials; `None` when it fails.
pub open spec fn authorization_of(v: Seq<char>) -> Option<(AuthenticationScheme, Seq<char>)> {
    match split_once(v, ' ') {
        (_, None) => None,
        (s, Some(c)) => match scheme_from_name(s) {
            Some(sc) => Some((sc, c)),
            None => None,
        },
    }
}

/// The error of parsing an `Authorization` value that fails: no space
/// means the credentials are missing, and otherwise the scheme is not one
/// that is known.
pub open spec fn authorization_error(v: Seq<char>, e: Error) -> bool {
    match split_once(v, ' ') {
        (_, None) => e == Error::Header(HeaderError::AuthorizationInvalid(AuthError::CredentialsMissing)),
        (s, Some(_)) => e matches Error::Header(
            HeaderError::AuthorizationInvalid(AuthError::SchemeUnrecognized(n)),
        ) && n@ == s,
    }
}

/// The header value of an authorization: the scheme's name, a space, and
/// the credentials.
pub open spec fn authorization_text(sc: AuthenticationScheme, c: Seq<char>) -> Seq<char> {
    scheme_name(sc) + seq![' '] + c
}

/// Credentials to authenticate a user agent with a server.
#[derive(Debug)]
pub struct Authorization {
    scheme: AuthenticationScheme,
    credentials: String,
}

impl View for Authorization {
    type V = (AuthenticationScheme, Seq<char>);

    closed spec fn view(&self) -> (AuthenticationScheme, Seq<char>) {
        (self.scheme, self.credentials@)
    }
}

impl Authorization {
    /// Create a new instance of `Authorization`.
    pub fn new(scheme: AuthenticationScheme, credentials: String) -> (r: Self)
        ensures
            r@ == (scheme, credentials@),
    {
        Self { scheme, credentials }
    }

    /// Parses an `Authorization` value.
    pub fn from_str(v: &str) -> (r: Result<Self, Error>)
        ensures
            match r {
                Ok(a) => authorization_of(v@) == Some(a@),
                Err(e) => authorization_of(v@) is None && authorization_error(v@, e),
            },
    {
        let cs = chars_of(v);
        let n = cs.len();
        assert(cs@.subrange(0, n as int) =~= v@);
        proof {
            lemma_find_some(v@, ' ');
        }
        match find_from(cs.as_slice(), 0, n, ' ') {
            None => Err(Error::Header(HeaderError::AuthorizationInvalid(AuthError::CredentialsMissing))),
            Some(k) => {
                assert(v@.take(k as int) =~= cs@.subrange(0, k as int));
                assert(v@.skip(k + 1) =~= cs@.subrange(k + 1, n as int));
                let name = string_from_chars(cs.as_slice(), 0, k);
                match AuthenticationScheme::from_str(name.as_str()) {
                    Ok(scheme) => {
                        let credentials = string_from_chars(cs.as_slice(), k + 1, n);
                        Ok(Self { scheme, credentials })
                    },
                    Err(e) => Err(Error::Header(HeaderError::AuthorizationInvalid(e))),
                }
            },
        }
    }

    /// Create a new instance from headers; the last value counts.
    pub fn from_headers(headers: &Headers) -> (r: Result<Option<Self>, Error>)
        ensures
            match last_value(headers@, "authorization"@) {
                None => r matches Ok(None),
                Some(v) => match r {
                    Ok(Some(a)) => authorization_of(v) == Some(a@),
                    Ok(None) => false,
                    Err(e) => authorization_of(v) is None && authorization_error(v, e),
                },
            },
    {
        let name = constants::authorization();
        let value = match last_value_of(headers, &name) {
            Some(v) => v,
            None => return Ok(None),
        };
        match Self::from_str(value.as_str()) {
            Ok(a) => Ok(Some(a)),
            Err(e) => Err(e),
        }
    }

    /// Get the authorization scheme.
    pub fn scheme(&self) -> (r: AuthenticationScheme)
        ensures
            r == self@.0,
    {
        self.scheme
    }

    /// Set the authorization scheme.
    pub fn set_scheme(&mut self, scheme: AuthenticationScheme)
        ensures
            final(self)@ == (scheme, old(self)@.1),
    {
        self.scheme = scheme;
    }

    /// Get the authorization credentials.
    pub fn credentials(&self) -> (r: &str)
        ensures
            r@ == self@.1,
    {
        self.credentials.as_str()
    }

    /// Set the authorization credentials.
    pub fn set_credentials(&mut self, credentials: String)
        ensures
            final(self)@ == (old(self)@.0, credentials@),
    {
        self.credentials = credentials;
    }

    /// The header value: the scheme, a space, then the credentials.
    pub fn value_string(&self) -> (r: String)
        ensures
            r@ == authorization_text(self@.0, self@.1),
    {
        let mut out = String::new();
        push_str(&mut out, self.scheme.as_str());
        push_char(&mut out, ' ');
        push_str(&mut out, self.credentials.as_str());
        assert(out@ =~= authorization_text(self@.0, self@.1));
        out
    }
}

pub proof fn lemma_scheme_name_ascii(sc: AuthenticationScheme)
    ensures
        all_ascii(scheme_name(sc)),
        find(scheme_name(sc), ' ') is None,
{
    let n = scheme_name(sc);
    assert forall|i: int| 0 <= i < n.len() implies (#[trigger] n[i] as u32) < 128 && n[i] != ' ' by {}
    crate::text::lemma_find_none(n, ' ');
}

pub proof fn lemma_authorization_text_ascii(sc: AuthenticationScheme, c: Seq<char>)
    requires
        all_ascii(c),
    ensures
        all_ascii(authorization_text(sc, c)),
{
    lemma_scheme_name_ascii(sc);
    let n = scheme_name(sc);
    let t = authorization_text(sc, c);
    assert forall|i: int| 0 <= i < t.len() implies (#[trigger] t[i] as u32) < 128 by {
        if i < n.len() {
            assert(t[i] == n[i]);
        } else if i > n.len() {
            assert(t[i] == c[i - n.len() - 1]);
        }
    }
}

/// Law: the value an authorization writes reads back as the same scheme
/// and credentials.
pub proof fn law_authorization_round_trip(sc: AuthenticationScheme, c: Seq<char>)
    ensures
        authorization_of(authorization_text(sc, c)) == Some((sc, c)),
{
    lemma_scheme_name_ascii(sc);
    let n = scheme_name(sc);
    let t = authorization_text(sc, c);
    lemma_find_some(n, ' ');
    crate::text::lemma_find_at(t, ' ', n.len() as int);
    assert(t.take(n.len() as int) =~= n);
    assert(t.skip(n.len() + 1 as int) =~= c);
}

impl Header for Authorization {
    open spec fn header_ok(&self) -> bool {
        all_ascii(self@.1)
    }

    open spec fn name_spec(&self) -> Seq<char> {
        "authorization"@
    }

    open spec fn value_spec(&self) -> Seq<char> {
        authorization_text(self@.0, self@.1)
    }

    fn header_name(&self) -> (r: HeaderName) {
        constants::authorization()
    }

    fn header_value(&self) -> (r: HeaderValue) {
        proof {
            lemma_authorization_text_ascii(self@.0, self@.1);
        }
        HeaderValue::from_ascii_string(self.value_string())
    }
}

} // verus!
