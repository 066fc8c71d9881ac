//! The `Last-Modified` header.

use vstd::prelude::*;

use crate::errors::{Error, HeaderError};
use crate::headers::{
    constants, insert_entry, last_value, last_value_of, law_lookup_after_insert, Entries, Header,
    HeaderName, HeaderValue, Headers,
};
use crate::utils::date::{
    fmt_http_date, http_date_result, http_date_text, law_http_date_round_trip, lemma_date_text_ascii,
    parse_http_date, MAX_HTTP_SECS,
};

verus! {

/// What reading an `Last-Modified` header from headers gives: the time
/// of the last value, in seconds since the Unix epoch.
pub open spec fn last_modified_result(es: Entries) -> Result<Option<u64>, Error> {
    match last_value(es, "last-modified"@) {
        None => Ok(None),
        Some(v) => match http_date_result(v) {
            Ok(secs) => Ok(Some(secs)),
            Err(e) => Err(Error::Header(HeaderError::DateInvalid(e))),
        },
    }
}

/// Law: a time that was applied reads back as the same time.
pub proof fn law_last_modified_round_trip(es: Entries, secs: u64)
    requires
        secs < MAX_HTTP_SECS,
    ensures
        last_modified_result(
            insert_entry(es, "last-modified"@, seq![http_date_text(secs as int)]),
        ) == Ok::<Option<u64>, Error>(Some(secs)),
{
    let v = http_date_text(secs as int);
    law_lookup_after_insert(es, "last-modified"@, seq![v], "last-modified"@);
    assert(seq![v].last() == v);
    law_http_date_round_trip(secs);
}

/// The last modification date of a resource, a time in whole seconds since
/// the Unix epoch.
#[derive(Debug, PartialEq, Eq, PartialOrd, Ord)]
pub struct LastModified {
    instant: u64,
}

impl View for LastModified {
    type V = u64;

    closed spec fn view(&self) -> u64 {
        self.instant
    }
}

impl LastModified {
    /// Create a new instance of `LastModified`.
    pub fn new(instant: u64) -> (r: Self)
        ensures
            r@ == instant,
    {
        Self { instant }
    }

    /// Returns the last modification time listed.
    pub fn modified(&self) -> (r: u64)
        ensures
            r == self@,
    {
        self.instant
    }

    /// Create a new instance from headers; the last value counts.
    pub fn from_headers(headers: &Headers) -> (r: Result<Option<Self>, Error>)
        ensures
            crate::headers::same_result(r, last_modified_result(headers@)),
    {
        let name = constants::last_modified();
        let value = match last_value_of(headers, &name) {
            Some(v) => v,
            None => return Ok(None),
        };
        match parse_http_date(value.as_str()) {
            Ok(instant) => Ok(Some(Self { instant })),
            Err(e) => Err(Error::Header(HeaderError::DateInvalid(e))),
        }
    }

    /// Sets the `Last-Modified` header.
    pub fn apply(&self, headers: &mut Headers)
        requires
            self@ < MAX_HTTP_SECS,
        ensures
            final(headers)@ == insert_entry(
                old(headers)@,
                "last-modified"@,
                seq![http_date_text(self@ as int)],
            ),
    {
        crate::headers::apply_header(self, headers);
    }
}

impl Header for LastModified {
    open spec fn header_ok(&self) -> bool {
        self@ < MAX_HTTP_SECS
    }

    open spec fn name_spec(&self) -> Seq<char> {
        "last-modified"@
    }

    open spec fn value_spec(&self) -> Seq<char> {
        http_date_text(self@ as int)
    }

    fn header_name(&self) -> (r: HeaderName) {
        constants::last_modified()
    }

    fn header_value(&self) -> (r: HeaderValue) {
        proof {
            lemma_date_text_ascii(self.instant);
        }
        HeaderValue::from_ascii_string(fmt_http_date(self.instant))
    }
}

} // verus!
