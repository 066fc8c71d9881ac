//! The `If-Range` header.

use vstd::prelude::*;

use crate::cache::{etag_of, etag_text, lemma_etag_of_text, Etag};
use crate::errors::Error;
use crate::headers::{
    constants, insert_entry, last_value, last_value_of, law_lookup_after_insert, Entries,
    HeaderName, HeaderValue, HeaderValues, Headers, ToHeaderValues,
};
use crate::text::all_ascii;
use vstd::std_specs::convert::FromSpecImpl;
use crate::utils::date::{
    fmt_http_date, http_date_result, http_date_text, law_http_date_round_trip,
    lemma_date_text_ascii, lemma_quoted_not_date, parse_http_date, MAX_HTTP_SECS,
};

verus! {

/// What an `If-Range` condition holds: a tag, or a time in whole seconds
/// since the Unix epoch.
pub enum IfRangeView {
    ETag((bool, Seq<char>)),
    Date(u64),
}

/// What parsing an `If-Range` value gives: a date where the text is one,
/// and otherwise a tag.
pub open spec fn if_range_of(s: Seq<char>) -> Result<IfRangeView, Error> {
    match http_date_result(s) {
        Ok(secs) => Ok(IfRangeView::Date(secs)),
        Err(_) => match etag_of(s) {
            Ok(t) => Ok(IfRangeView::ETag(t)),
            Err(e) => Err(e),
        },
    }
}

/// What reading an `If-Range` header from headers gives.
pub open spec fn if_range_result(es: Entries) -> Result<Option<IfRangeView>, Error> {
    match last_value(es, "if-range"@) {
        None => Ok(None),
        Some(v) => match if_range_of(v) {
            Ok(c) => Ok(Some(c)),
            Err(e) => Err(e),
        },
    }
}

/// The header text of a condition.
pub open spec fn if_range_text(c: IfRangeView) -> Seq<char> {
    match c {
        IfRangeView::ETag(t) => etag_text(t),
        IfRangeView::Date(secs) => http_date_text(secs as int),
    }
}

/// A condition whose text can stand in a header.
pub open spec fn if_range_ok(c: IfRangeView) -> bool {
    match c {
        IfRangeView::ETag(t) => all_ascii(t.1),
        IfRangeView::Date(secs) => secs < MAX_HTTP_SECS,
    }
}

/// Law: a date that was applied reads back as the same date.
pub proof fn law_if_range_date_round_trip(es: Entries, secs: u64)
    requires
        secs < MAX_HTTP_SECS,
    ensures
        if_range_result(insert_entry(es, "if-range"@, seq![http_date_text(secs as int)]))
            == Ok::<Option<IfRangeView>, Error>(Some(IfRangeView::Date(secs))),
{
    let v = http_date_text(secs as int);
    law_lookup_after_insert(es, "if-range"@, seq![v], "if-range"@);
    assert(seq![v].last() == v);
    law_http_date_round_trip(secs);
}

/// Law: a tag that was applied, strong or weak, reads back as the same tag.
pub proof fn law_if_range_etag_round_trip(es: Entries, t: (bool, Seq<char>))
    ensures
        if_range_result(insert_entry(es, "if-range"@, seq![etag_text(t)]))
            == Ok::<Option<IfRangeView>, Error>(Some(IfRangeView::ETag(t))),
{
    let v = etag_text(t);
    law_lookup_after_insert(es, "if-range"@, seq![v], "if-range"@);
    assert(seq![v].last() == v);
    lemma_etag_of_text(t);
    lemma_quoted_not_date(v);
}

/// Apply the HTTP method if the ETag or date matches.
#[derive(Debug, Clone, PartialEq, Eq)]
pub enum IfRange {
    /// If-Range condition expressed with an `ETag`.
    ETag(Etag),
    /// If-Range condition expressed with an HTTP date, in whole seconds since
    /// the Unix epoch.
    Date(u64),
}

impl View for IfRange {
    type V = IfRangeView;

    open spec fn view(&self) -> IfRangeView {
        match self {
            IfRange::ETag(t) => IfRangeView::ETag(t@),
            IfRange::Date(secs) => IfRangeView::Date(*secs),
        }
    }
}

impl IfRange {
    /// Create an instance of `IfRange` from a `Headers` instance; the last
    /// value counts.
    pub fn from_headers(headers: &Headers) -> (r: Result<Option<Self>, Error>)
        ensures
            crate::headers::same_result(r, if_range_result(headers@)),
    {
        let name = constants::if_range();
        let value = match last_value_of(headers, &name) {
            Some(v) => v,
            None => return Ok(None),
        };
        match parse_http_date(value.as_str()) {
            Ok(secs) => Ok(Some(IfRange::Date(secs))),
            Err(_) => match Etag::from_str(value.as_str()) {
                Ok(t) => Ok(Some(IfRange::ETag(t))),
                Err(e) => Err(e),
            },
        }
    }

    /// Insert a `HeaderName` + `HeaderValue` pair into a `Headers` instance.
    pub fn apply(&self, headers: &mut Headers)
        requires
            if_range_ok(self@),
        ensures
            final(headers)@ == insert_entry(old(headers)@, "if-range"@, seq![if_range_text(self@)]),
    {
        crate::headers::set_single(headers, self.name(), self.value());
    }

    /// Get the `HeaderName`.
    pub fn name(&self) -> (r: HeaderName)
        ensures
            r@ == "if-range"@,
    {
        constants::if_range()
    }

    /// Get the `HeaderValue`.
    pub fn value(&self) -> (r: HeaderValue)
        requires
            if_range_ok(self@),
        ensures
            r@ == if_range_text(self@),
    {
        match self {
            IfRange::ETag(t) => t.value(),
            IfRange::Date(secs) => {
                proof {
                    lemma_date_text_ascii(*secs);
                }
                HeaderValue::from_ascii_string(fmt_http_date(*secs))
            },
        }
    }

    /// The header text of the condition, as `to_string` gives it.
    pub fn to_string(&self) -> (r: String)
        requires
            match self@ {
                IfRangeView::Date(secs) => secs < MAX_HTTP_SECS,
                IfRangeView::ETag(_) => true,
            },
        ensures
            r@ == if_range_text(self@),
    {
        match self {
            IfRange::ETag(t) => t.to_string(),
            IfRange::Date(secs) => fmt_http_date(*secs),
        }
    }
}

impl ToHeaderValues for IfRange {
    open spec fn header_values_spec(&self) -> Option<Seq<Seq<char>>> {
        if if_range_ok(self@) {
            Some(seq![if_range_text(self@)])
        } else {
            None
        }
    }

    fn to_header_values(&self) -> (r: Result<HeaderValues, Error>) {
        let ok = match self {
            IfRange::ETag(t) => {
                let cs = crate::text::chars_of(t.text());
                assert(cs@.subrange(0, cs@.len() as int) =~= cs@);
                crate::text::all_ascii_range(cs.as_slice(), 0, cs.len())
            },
            IfRange::Date(secs) => *secs < MAX_HTTP_SECS,
        };
        if !ok {
            return Err(Error::Status(500, "If-Range values should be valid ASCII dates or tags"));
        }
        Ok(HeaderValues::new(self.value()))
    }
}

impl From<Etag> for IfRange {
    fn from(etag: Etag) -> (r: Self) {
        IfRange::ETag(etag)
    }
}

impl FromSpecImpl<Etag> for IfRange {
    open spec fn obeys_from_spec() -> bool {
        true
    }

    open spec fn from_spec(v: Etag) -> Self {
        IfRange::ETag(v)
    }
}

} // verus!
