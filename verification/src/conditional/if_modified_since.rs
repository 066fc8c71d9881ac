//! The `If-Modified-Since` header.

use vstd::prelude::*;

use crate::errors::{Error, HeaderError};
use crate::headers::{
    constants, insert_entry, last_value, last_value_of, law_lookup_after_insert, Entries, Header,
    HeaderName, HeaderValue, Headers,
};
use crate::utils::date::{
    fmt_http_date, http_date_result, http_date_text, law_http_date_round_trip, lemma_date_text_ascii,
    parse_http_date, MAX_HTTP_SECS,
};

verus! {

/// What reading an `If-Modified-Since` header from headers gives: the time
/// of the last value, in seconds since the Unix epoch.
pub open spec fn if_modified_since_result(es: Entries) -> Result<Option<u64>, Error> {
    match last_value(es, "if-modified-since"@) {
        None => Ok(None),
        Some(v) => match http_date_result(v) {
            Ok(secs) => Ok(Some(secs)),
            Err(e) => Err(Error::Header(HeaderError::DateInvalid(e))),
        },
    }
}

/// Law: a time that was applied reads back as the same time.
pub proof fn law_if_modified_since_round_trip(es: Entries, secs: u64)
    requires
        secs < MAX_HTTP_SECS,
    ensures
        if_modified_since_result(
            insert_entry(es, "if-modified-since"@, seq![http_date_text(secs as int)]),
        ) == Ok::<Option<u64>, Error>(Some(secs)),
{
    let v = http_date_text(secs as int);
    law_lookup_after_insert(es, "if-modified-since"@, seq![v], "if-modified-since"@);
    assert(seq![v].last() == v);
    law_http_date_round_trip(secs);
}

/// Apply the HTTP method if the entity has been modified after the given
/// date, a time in whole seconds since the Unix epoch.
#[derive(Debug, PartialEq, Eq, PartialOrd, Ord)]
pub struct IfModifiedSince {
    instant: u64,
}

impl View for IfModifiedSince {
    type V = u64;

    closed spec fn view(&self) -> u64 {
        self.instant
    }
}

impl IfModifiedSince {
    /// Create a new instance of `IfModifiedSince`.
    pub fn new(instant: u64) -> (r: Self)
        ensures
            r@ == instant,
    {
        Self { instant }
    }

    /// Returns the last modification time listed.
    pub fn modified(&self) -> (r: u64)
        ensures
            r == self@,
    {
        self.instant
    }

    /// Create an instance of `IfModifiedSince` from a `Headers` instance; the
    /// last value counts.
    pub fn from_headers(headers: &Headers) -> (r: Result<Option<Self>, Error>)
        ensures
            crate::headers::same_result(r, if_modified_since_result(headers@)),
    {
        let name = constants::if_modified_since();
        let value = match last_value_of(headers, &name) {
            Some(v) => v,
            None => return Ok(None),
        };
        match parse_http_date(value.as_str()) {
            Ok(instant) => Ok(Some(Self { instant })),
            Err(e) => Err(Error::Header(HeaderError::DateInvalid(e))),
        }
    }

    /// Sets the `If-Modified-Since` header.
    pub fn apply(&self, headers: &mut Headers)
        requires
            self@ < MAX_HTTP_SECS,
        ensures
            final(headers)@ == insert_entry(
                old(headers)@,
                "if-modified-since"@,
                seq![http_date_text(self@ as int)],
            ),
    {
        crate::headers::apply_header(self, headers);
    }
}

impl Header for IfModifiedSince {
    open spec fn header_ok(&self) -> bool {
        self@ < MAX_HTTP_SECS
    }

    open spec fn name_spec(&self) -> Seq<char> {
        "if-modified-since"@
    }

    open spec fn value_spec(&self) -> Seq<char> {
        http_date_text(self@ as int)
    }

    fn header_name(&self) -> (r: HeaderName) {
        constants::if_modified_since()
    }

    fn header_value(&self) -> (r: HeaderValue) {
        proof {
            lemma_date_text_ascii(self.instant);
        }
        HeaderValue::from_ascii_string(fmt_http_date(self.instant))
    }
}

} // verus!
