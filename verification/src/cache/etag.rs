use vstd::prelude::*;

use crate::errors::Error;
use crate::headers::{
    constants, insert_entry, last_value, last_value_of, law_lookup_after_insert, set_single,
    Entries, HeaderName, HeaderValue, HeaderValues, Headers, ToHeaderValues,
};
use crate::text::{all_ascii, chars_of, push_char, push_chars, string_from_chars};

verus! {

/// HTTP Entity Tags.
///
/// ETags provide an ID for a particular resource, enabling clients and servers
/// to reason about caches and make conditional requests.
#[derive(Debug, Clone, PartialEq, Eq)]
pub enum Etag {
    /// An Etag using strong validation.
    Strong(String),
    /// An ETag using weak validation.
    Weak(String),
}

impl View for Etag {
    /// Whether the tag is weak, and its text.
    type V = (bool, Seq<char>);

    open spec fn view(&self) -> (bool, Seq<char>) {
        match self {
            Etag::Strong(s) => (false, s@),
            Etag::Weak(s) => (true, s@),
        }
    }
}

/// The header value of a tag: quoted, and prefixed by `W/` when weak.
pub open spec fn etag_text(t: (bool, Seq<char>)) -> Seq<char> {
    if t.0 {
        seq!['W', '/', '"'] + t.1 + seq!['"']
    } else {
        seq!['"'] + t.1 + seq!['"']
    }
}

/// What parsing a tag gives: a `W/` prefix marks it weak, and the rest
/// must be quoted.
pub open spec fn etag_of(s: Seq<char>) -> Result<(bool, Seq<char>), Error> {
    let weak = s.len() >= 2 && s[0] == 'W' && s[1] == '/';
    let rest = if weak {
        s.skip(2)
    } else {
        s
    };
    if rest.len() >= 2 && rest[0] == '"' && rest.last() == '"' {
        Ok((weak, rest.subrange(1, rest.len() - 1)))
    } else {
        Err(Error::Status(400, "Invalid ETag header"))
    }
}

/// What reading an `ETag` header from headers gives.
pub open spec fn etag_result(es: Entries) -> Result<Option<(bool, Seq<char>)>, Error> {
    match last_value(es, "etag"@) {
        None => Ok(None),
        Some(v) => match etag_of(v) {
            Ok(t) => Ok(Some(t)),
            Err(e) => Err(e),
        },
    }
}

/// The text of a tag contains no backslash.
pub open spec fn no_backslash(s: Seq<char>) -> bool {
    forall|i: int| 0 <= i < s.len() ==> #[trigger] s[i] != '\\'
}

pub proof fn lemma_etag_text_ascii(t: (bool, Seq<char>))
    requires
        all_ascii(t.1),
    ensures
        all_ascii(etag_text(t)),
{
    let x = etag_text(t);
    let k: int = if t.0 {
        3
    } else {
        1
    };
    assert forall|i: int| 0 <= i < x.len() implies (#[trigger] x[i] as u32) < 128 by {
        if k <= i < k + t.1.len() {
            assert(x[i] == t.1[i - k]);
        }
    }
}

/// Parsing the text of a tag gives the tag back.
pub proof fn lemma_etag_of_text(t: (bool, Seq<char>))
    ensures
        etag_of(etag_text(t)) == Ok::<(bool, Seq<char>), Error>(t),
{
    let v = etag_text(t);
    if t.0 {
        let rest = v.skip(2);
        assert(rest =~= seq!['"'] + t.1 + seq!['"']);
        assert(rest.subrange(1, rest.len() - 1) =~= t.1);
    } else {
        assert(v.subrange(1, v.len() - 1) =~= t.1);
    }
}

/// Law: a tag that was applied, strong or weak, reads back as the same tag.
pub proof fn law_etag_round_trip(es: Entries, t: (bool, Seq<char>))
    ensures
        etag_result(insert_entry(es, "etag"@, seq![etag_text(t)])) == Ok::<
            Option<(bool, Seq<char>)>,
            Error,
        >(Some(t)),
{
    let v = etag_text(t);
    law_lookup_after_insert(es, "etag"@, seq![v], "etag"@);
    assert(seq![v].last() == v);
    lemma_etag_of_text(t);
}

/// Builds the header value text of a tag.
fn push_etag_text(out: &mut String, weak: bool, cs: &[char])
    ensures
        final(out)@ == old(out)@ + etag_text((weak, cs@)),
{
    if weak {
        push_char(out, 'W');
        push_char(out, '/');
    }
    push_char(out, '"');
    push_chars(out, cs, 0, cs.len());
    push_char(out, '"');
    assert(cs@.subrange(0, cs@.len() as int) =~= cs@);
    assert(final(out)@ =~= old(out)@ + etag_text((weak, cs@)));
}

impl Etag {
    /// Create a new Etag that uses strong validation.
    pub fn new(s: String) -> (r: Self)
        requires
            no_backslash(s@),
        ensures
            r@ == (false, s@),
    {
        Self::Strong(s)
    }

    /// Create a new Etag that uses weak validation.
    pub fn new_weak(s: String) -> (r: Self)
        requires
            no_backslash(s@),
        ensures
            r@ == (true, s@),
    {
        Self::Weak(s)
    }

    /// Parses a single tag.
    pub fn from_str(s: &str) -> (r: Result<Self, Error>)
        ensures
            match r {
                Ok(t) => etag_of(s@) == Ok::<(bool, Seq<char>), Error>(t@),
                Err(e) => etag_of(s@) == Err::<(bool, Seq<char>), Error>(e),
            },
    {
        let cs = chars_of(s);
        assert(cs@.subrange(0, cs@.len() as int) =~= s@);
        Self::from_chars(cs.as_slice(), 0, cs.len())
    }

    /// Parses the tag `cs[from..to]`.
    pub(crate) fn from_chars(cs: &[char], from: usize, to: usize) -> (r: Result<Self, Error>)
        requires
            from <= to <= cs@.len(),
        ensures
            match r {
                Ok(t) => etag_of(cs@.subrange(from as int, to as int)) == Ok::<
                    (bool, Seq<char>),
                    Error,
                >(t@),
                Err(e) => etag_of(cs@.subrange(from as int, to as int)) == Err::<
                    (bool, Seq<char>),
                    Error,
                >(e),
            },
    {
        let ghost s = cs@.subrange(from as int, to as int);
        let weak = to - from >= 2 && cs[from] == 'W' && cs[from + 1] == '/';
        let start = if weak {
            from + 2
        } else {
            from
        };
        let ghost rest = cs@.subrange(start as int, to as int);
        assert(rest =~= if weak {
            s.skip(2)
        } else {
            s
        });
        if to - start >= 2 && cs[start] == '"' && cs[to - 1] == '"' {
            let text = string_from_chars(cs, start + 1, to - 1);
            assert(text@ =~= rest.subrange(1, rest.len() - 1));
            if weak {
                Ok(Etag::Weak(text))
            } else {
                Ok(Etag::Strong(text))
            }
        } else {
            Err(Error::Status(400, "Invalid ETag header"))
        }
    }

    /// Create a new instance from headers.
    ///
    /// Only a single ETag per resource is assumed to exist. If multiple ETag
    /// headers are found the last one is used.
    pub fn from_headers(headers: &Headers) -> (r: Result<Option<Self>, Error>)
        ensures
            crate::headers::same_result(r, etag_result(headers@)),
    {
        let name = constants::etag();
        let value = match last_value_of(headers, &name) {
            Some(v) => v,
            None => return Ok(None),
        };
        match Self::from_str(value.as_str()) {
            Ok(t) => Ok(Some(t)),
            Err(e) => Err(e),
        }
    }

    /// Whether the tag is weak, and its text.
    pub fn is_weak(&self) -> (r: bool)
        ensures
            r == self@.0,
    {
        match self {
            Etag::Strong(_) => false,
            Etag::Weak(_) => true,
        }
    }

    /// The text of the tag.
    pub fn text(&self) -> (r: &str)
        ensures
            r@ == self@.1,
    {
        match self {
            Etag::Strong(s) => s.as_str(),
            Etag::Weak(s) => s.as_str(),
        }
    }

    /// The tag as it is written in a header, as `to_string` gives it.
    pub fn to_string(&self) -> (r: String)
        ensures
            r@ == etag_text(self@),
    {
        let cs = chars_of(self.text());
        let mut out = String::new();
        push_etag_text(&mut out, self.is_weak(), cs.as_slice());
        assert(out@ =~= etag_text(self@));
        out
    }

    /// Sets the `ETag` header.
    pub fn apply(&self, headers: &mut Headers)
        requires
            all_ascii(self@.1),
        ensures
            final(headers)@ == insert_entry(old(headers)@, "etag"@, seq![etag_text(self@)]),
    {
        set_single(headers, self.name(), self.value());
    }

    /// Get the `HeaderName`.
    pub fn name(&self) -> (r: HeaderName)
        ensures
            r@ == "etag"@,
    {
        constants::etag()
    }

    /// Get the `HeaderValue`; the text of the tag must be ASCII.
    pub fn value(&self) -> (r: HeaderValue)
        requires
            all_ascii(self@.1),
        ensures
            r@ == etag_text(self@),
    {
        proof {
            lemma_etag_text_ascii(self@);
        }
        HeaderValue::from_ascii_string(self.to_string())
    }
}

impl ToHeaderValues for Etag {
    open spec fn header_values_spec(&self) -> Option<Seq<Seq<char>>> {
        if all_ascii(self@.1) {
            Some(seq![etag_text(self@)])
        } else {
            None
        }
    }

    fn to_header_values(&self) -> (r: Result<HeaderValues, Error>) {
        let cs = chars_of(self.text());
        if !crate::text::all_ascii_range(cs.as_slice(), 0, cs.len()) {
            assert(cs@.subrange(0, cs@.len() as int) =~= cs@);
            return Err(Error::Status(500, "ETags should be valid ASCII"));
        }
        assert(cs@.subrange(0, cs@.len() as int) =~= cs@);
        Ok(HeaderValues::new(self.value()))
    }
}

} // verus!
