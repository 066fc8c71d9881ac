//! Indicates an alternate location for the returned data.

use vstd::prelude::*;

use crate::errors::{Error, HeaderError};
use crate::headers::{
    constants, last_value, last_value_of, Header, HeaderName, HeaderValue, Headers,
};
use crate::text::{all_ascii, chars_of, string_from_chars, trim, trim_bounds};
use crate::url::{joined_url, Url};

verus! {

/// What reading a `Content-Location` header from headers gives: the last
/// value, trimmed, joined to the base URL.
pub open spec fn content_location_result(base: Seq<char>, es: crate::headers::Entries) -> Result<
    Option<Seq<char>>,
    Error,
> {
    match last_value(es, "content-location"@) {
        None => Ok(None),
        Some(v) => match joined_url(base, trim(v)) {
            None => Err(Error::Header(HeaderError::ContentLocationInvalidBaseUrl)),
            Some(None) => Err(Error::Header(HeaderError::ContentLocationInvalidUrl)),
            Some(Some(u)) => Ok(Some(u)),
        },
    }
}

/// Indicates an alternate location for the returned data.
#[derive(Debug)]
pub struct ContentLocation {
    url: Url,
}

impl View for ContentLocation {
    type V = Seq<char>;

    closed spec fn view(&self) -> Seq<char> {
        self.url@
    }
}

impl ContentLocation {
    /// Create a new instance of `Content-Location` header.
    pub fn new(url: Url) -> (r: Self)
        ensures
            r@ == url@,
    {
        Self { url }
    }

    /// Create a new instance from headers, resolving the location against
    /// the base URL given as text.
    pub fn from_headers(base_url: &str, headers: &Headers) -> (r: Result<Option<Self>, Error>)
        ensures
            crate::headers::same_result(r, content_location_result(base_url@, headers@)),
    {
        let name = constants::content_location();
        let value = match last_value_of(headers, &name) {
            Some(v) => v,
            None => return Ok(None),
        };
        let cs = chars_of(value.as_str());
        let (a, b) = trim_bounds(cs.as_slice(), 0, cs.len());
        assert(cs@.subrange(0, cs@.len() as int) =~= cs@);
        let location = string_from_chars(cs.as_slice(), a, b);
        match Url::join_str(base_url, location.as_str()) {
            None => Err(Error::Header(HeaderError::ContentLocationInvalidBaseUrl)),
            Some(None) => Err(Error::Header(HeaderError::ContentLocationInvalidUrl)),
            Some(Some(url)) => Ok(Some(Self { url })),
        }
    }

    /// Get the url.
    pub fn location(&self) -> (r: &Url)
        ensures
            r@ == self@,
    {
        &self.url
    }

    /// Set the url.
    pub fn set_location(&mut self, location: Url)
        ensures
            final(self)@ == location@,
    {
        self.url = location;
    }
}

impl Header for ContentLocation {
    open spec fn header_ok(&self) -> bool {
        all_ascii(self@)
    }

    open spec fn name_spec(&self) -> Seq<char> {
        "content-location"@
    }

    open spec fn value_spec(&self) -> Seq<char> {
        self@
    }

    fn header_name(&self) -> (r: HeaderName) {
        constants::content_location()
    }

    fn header_value(&self) -> (r: HeaderValue) {
        HeaderValue::from_ascii_string(self.url.as_str().to_owned())
    }
}

} // verus!
