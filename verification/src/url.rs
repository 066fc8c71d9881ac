//! URL records, as text that the `url` crate has parsed.

use vstd::prelude::*;

use crate::text::chars_of;
use vstd::std_specs::cmp::PartialEqSpecImpl;

verus! {

/// The serialization of the URL that `url::Url::parse` makes of some text,
/// or `None` where it fails.
pub uninterp spec fn parsed_url(input: Seq<char>) -> Option<Seq<char>>;

/// The serialization of the URL that `url::Url::join` makes of `input`
/// against the base URL that `base` parses to: `None` where the base does
/// not parse, and `Some(None)` where the join fails.
pub uninterp spec fn joined_url(base: Seq<char>, input: Seq<char>) -> Option<Option<Seq<char>>>;

/// Calls `url::Url::parse` and keeps the serialization of the result.
#[verifier::external_body]
fn parse_url(input: &str) -> (r: Option<String>)
    ensures
        match r {
            Some(s) => parsed_url(input@) == Some(s@),
            None => parsed_url(input@) is None,
        },
{
    ::url::Url::parse(input).ok().map(String::from)
}

/// Calls `url::Url::parse` on `base`, then `url::Url::join` with `input`,
/// and keeps the serialization of the result.
#[verifier::external_body]
fn join_url(base: &str, input: &str) -> (r: Option<Option<String>>)
    ensures
        match r {
            Some(Some(s)) => joined_url(base@, input@) == Some(Some(s@)),
            Some(None) => joined_url(base@, input@) == Some(None::<Seq<char>>),
            None => joined_url(base@, input@) is None,
        },
{
    match ::url::Url::parse(base) {
        Ok(b) => Some(b.join(input).ok().map(String::from)),
        Err(_) => None,
    }
}

/// An error returned when text is not a URL.
#[derive(Debug, Clone, Copy, PartialEq, Eq)]
pub struct UrlParseError {
    _private: (),
}

/// A parsed URL, held as its serialization.
#[derive(Debug, Clone)]
pub struct Url {
    serialization: String,
}

impl View for Url {
    type V = Seq<char>;

    closed spec fn view(&self) -> Seq<char> {
        self.serialization@
    }
}

impl Url {
    /// Parse an absolute URL from a string.
    pub fn parse(input: &str) -> (r: Result<Url, UrlParseError>)
        ensures
            match r {
                Ok(u) => parsed_url(input@) == Some(u@),
                Err(_) => parsed_url(input@) is None,
            },
    {
        match parse_url(input) {
            Some(s) => Ok(Url { serialization: s }),
            None => Err(UrlParseError { _private: () }),
        }
    }

    /// Parse `input` as a URL relative to the URL that `base` parses to:
    /// `None` where the base does not parse, and `Some(None)` where the
    /// input does not.
    pub fn join_str(base: &str, input: &str) -> (r: Option<Option<Url>>)
        ensures
            match r {
                Some(Some(u)) => joined_url(base@, input@) == Some(Some(u@)),
                Some(None) => joined_url(base@, input@) == Some(None::<Seq<char>>),
                None => joined_url(base@, input@) is None,
            },
    {
        match join_url(base, input) {
            Some(Some(s)) => Some(Some(Url { serialization: s })),
            Some(None) => Some(None),
            None => None,
        }
    }

    /// Return the serialization of this URL.
    pub fn as_str(&self) -> (r: &str)
        ensures
            r@ == self@,
    {
        self.serialization.as_str()
    }
}

impl PartialEq for Url {
    fn eq(&self, other: &Self) -> (r: bool) {
        let a = chars_of(self.serialization.as_str());
        let b = chars_of(other.serialization.as_str());
        crate::text::eq_chars(&a, &b)
    }
}

impl PartialEqSpecImpl for Url {
    open spec fn obeys_eq_spec() -> bool {
        true
    }

    open spec fn eq_spec(&self, other: &Url) -> bool {
        self@ == other@
    }
}

} // verus!
