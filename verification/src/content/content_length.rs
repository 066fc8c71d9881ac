use vstd::prelude::*;

use crate::errors::{Error, HeaderError};
use crate::headers::{
    constants, insert_entry, last_value, last_value_of, law_lookup_after_insert, Entries,
    Header, HeaderName, HeaderValue, Headers,
};
use crate::text::{
    chars_of, decimal, lemma_decimal_digits, lemma_parse_decimal, parse_u64,
    parse_u64_range, trim, trim_bounds, trim_end, trim_start, u64_to_string, all_ascii,
    is_digit,
};

verus! {

/// The size of the entity-body, in bytes, sent to the recipient.
#[derive(Debug)]
pub struct ContentLength {
    length: u64,
}

impl View for ContentLength {
    type V = u64;

    closed spec fn view(&self) -> u64 {
        self.length
    }
}

/// What reading a `Content-Length` header from headers gives.
pub open spec fn content_length_result(es: Entries) -> Result<Option<u64>, Error> {
    match last_value(es, "content-length"@) {
        None => Ok(None),
        Some(v) => match parse_u64(trim(v)) {
            Some(n) => Ok(Some(n)),
            None => Err(Error::Header(HeaderError::ContentLengthInvalid)),
        },
    }
}

/// Decimal text is ASCII and has no surrounding whitespace.
pub proof fn lemma_decimal_text(n: u64)
    ensures
        all_ascii(decimal(n as nat)),
        trim(decimal(n as nat)) == decimal(n as nat),
{
    let d = decimal(n as nat);
    lemma_decimal_digits(n as nat);
    assert(is_digit(d[0]) && is_digit(d.last()));
    assert(trim_start(d) == d);
    assert(trim_end(d) == d);
    assert forall|i: int| 0 <= i < d.len() implies (#[trigger] d[i] as u32) < 128 by {
        assert(is_digit(d[i]));
    }
}

/// Law: a `Content-Length` header that was applied reads back as the same length.
pub proof fn law_content_length_round_trip(es: Entries, n: u64)
    ensures
        content_length_result(insert_entry(es, "content-length"@, seq![decimal(n as nat)]))
            == Ok::<Option<u64>, Error>(Some(n)),
{
    law_lookup_after_insert(es, "content-length"@, seq![decimal(n as nat)], "content-length"@);
    assert(seq![decimal(n as nat)].last() == decimal(n as nat));
    lemma_decimal_text(n);
    lemma_parse_decimal(n);
}

impl ContentLength {
    /// Create a new instance.
    pub fn new(length: u64) -> (r: Self)
        ensures
            r@ == length,
    {
        Self { length }
    }

    /// Create a new instance from headers; the last value counts, trimmed of
    /// whitespace.
    pub fn from_headers(headers: &Headers) -> (r: Result<Option<Self>, Error>)
        ensures
            crate::headers::same_result(r, content_length_result(headers@)),
    {
        let name = constants::content_length();
        let value = match last_value_of(headers, &name) {
            Some(v) => v,
            None => return Ok(None),
        };
        let cs = chars_of(value.as_str());
        let (a, b) = trim_bounds(cs.as_slice(), 0, cs.len());
        assert(cs@.subrange(0, cs@.len() as int) =~= cs@);
        match parse_u64_range(cs.as_slice(), a, b) {
            Some(length) => Ok(Some(Self { length })),
            None => Err(Error::Header(HeaderError::ContentLengthInvalid)),
        }
    }

    /// Get the content length.
    pub fn len(&self) -> (r: u64)
        ensures
            r == self@,
    {
        self.length
    }

    /// Set the content length.
    pub fn set_len(&mut self, len: u64)
        ensures
            final(self)@ == len,
    {
        self.length = len;
    }
}

impl Header for ContentLength {
    open spec fn header_ok(&self) -> bool {
        true
    }

    open spec fn name_spec(&self) -> Seq<char> {
        "content-length"@
    }

    open spec fn value_spec(&self) -> Seq<char> {
        decimal(self@ as nat)
    }

    fn header_name(&self) -> (r: HeaderName) {
        constants::content_length()
    }

    fn header_value(&self) -> (r: HeaderValue) {
        proof {
            lemma_decimal_text(self.length);
        }
        HeaderValue::from_ascii_string(u64_to_string(self.length))
    }
}

} // verus!
