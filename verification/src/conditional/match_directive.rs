use vstd::prelude::*;

use crate::cache::{etag_of, etag_text, lemma_etag_text_ascii, Etag};
use crate::errors::Error;
use crate::headers::HeaderValue;
use crate::text::{all_ascii, chars_of, trim, trim_bounds};
use vstd::std_specs::convert::FromSpecImpl;

verus! {

/// An Entity Tag based match directive.
#[derive(Debug, Clone, PartialEq, Eq)]
pub enum MatchDirective {
    /// An ETag.
    ETag(Etag),
    /// Match any resource.
    Wildcard,
}

impl View for MatchDirective {
    /// The tag, or `None` for the wildcard.
    type V = Option<(bool, Seq<char>)>;

    open spec fn view(&self) -> Option<(bool, Seq<char>)> {
        match self {
            MatchDirective::ETag(t) => Some(t@),
            MatchDirective::Wildcard => None,
        }
    }
}

/// What parsing one directive gives: nothing for blank text, the wildcard
/// for `*`, and otherwise a tag.
pub open spec fn match_directive_of(s: Seq<char>) -> Result<Option<Option<(bool, Seq<char>)>>, Error> {
    let t = trim(s);
    if t.len() == 0 {
        Ok(None)
    } else if t == seq!['*'] {
        Ok(Some(None))
    } else {
        match etag_of(t) {
            Ok(tag) => Ok(Some(Some(tag))),
            Err(e) => Err(e),
        }
    }
}

/// The header text of a directive.
pub open spec fn match_directive_text(d: Option<(bool, Seq<char>)>) -> Seq<char> {
    match d {
        Some(t) => etag_text(t),
        None => seq!['*'],
    }
}

/// A directive whose text can stand in a header.
pub open spec fn match_directive_ascii(d: Option<(bool, Seq<char>)>) -> bool {
    match d {
        Some(t) => all_ascii(t.1),
        None => true,
    }
}

pub proof fn lemma_match_directive_text_ascii(d: Option<(bool, Seq<char>)>)
    requires
        match_directive_ascii(d),
    ensures
        all_ascii(match_directive_text(d)),
{
    if let Some(t) = d {
        lemma_etag_text_ascii(t);
    }
}

impl MatchDirective {
    /// Create an instance from a string slice, trimmed of whitespace.
    pub fn from_str(s: &str) -> (r: Result<Option<Self>, Error>)
        ensures
            match r {
                Ok(Some(d)) => match_directive_of(s@) == Ok::<
                    Option<Option<(bool, Seq<char>)>>,
                    Error,
                >(Some(d@)),
                Ok(None) => match_directive_of(s@) == Ok::<
                    Option<Option<(bool, Seq<char>)>>,
                    Error,
                >(None),
                Err(e) => match_directive_of(s@) == Err::<Option<Option<(bool, Seq<char>)>>, Error>(e),
            },
    {
        let cs = chars_of(s);
        assert(cs@.subrange(0, cs@.len() as int) =~= s@);
        Self::from_chars(cs.as_slice(), 0, cs.len())
    }

    /// Parses the directive `cs[from..to]`.
    pub(crate) fn from_chars(cs: &[char], from: usize, to: usize) -> (r: Result<Option<Self>, Error>)
        requires
            from <= to <= cs@.len(),
        ensures
            match r {
                Ok(Some(d)) => match_directive_of(cs@.subrange(from as int, to as int)) == Ok::<
                    Option<Option<(bool, Seq<char>)>>,
                    Error,
                >(Some(d@)),
                Ok(None) => match_directive_of(cs@.subrange(from as int, to as int)) == Ok::<
                    Option<Option<(bool, Seq<char>)>>,
                    Error,
                >(None),
                Err(e) => match_directive_of(cs@.subrange(from as int, to as int)) == Err::<
                    Option<Option<(bool, Seq<char>)>>,
                    Error,
                >(e),
            },
    {
        let (a, b) = trim_bounds(cs, from, to);
        let ghost t = cs@.subrange(a as int, b as int);
        if a == b {
            assert(t.len() == 0);
            return Ok(None);
        }
        if b - a == 1 && cs[a] == '*' {
            assert(t =~= seq!['*']);
            return Ok(Some(MatchDirective::Wildcard));
        }
        assert(t != seq!['*']) by {
            if t == seq!['*'] {
                assert(t[0] == cs@[a as int]);
            }
        }
        match Etag::from_chars(cs, a, b) {
            Ok(tag) => Ok(Some(MatchDirective::ETag(tag))),
            Err(e) => Err(e),
        }
    }

    /// The header value of the directive; a tag's text must be ASCII.
    pub fn value(&self) -> (r: HeaderValue)
        requires
            match_directive_ascii(self@),
        ensures
            r@ == match_directive_text(self@),
    {
        match self {
            MatchDirective::ETag(t) => t.value(),
            MatchDirective::Wildcard => {
                proof {
                    reveal_strlit("*");
                }
                let r = HeaderValue::from_static_str("*");
                assert(r@ =~= seq!['*']);
                r
            },
        }
    }

    /// Whether the directive's text can stand in a header.
    pub fn is_ascii(&self) -> (r: bool)
        ensures
            r == match_directive_ascii(self@),
    {
        match self {
            MatchDirective::ETag(t) => {
                let cs = chars_of(t.text());
                assert(cs@.subrange(0, cs@.len() as int) =~= cs@);
                crate::text::all_ascii_range(cs.as_slice(), 0, cs.len())
            },
            MatchDirective::Wildcard => true,
        }
    }

    /// Whether this directive is the given tag.
    pub fn eq_etag(&self, other: &Etag) -> (r: bool)
        ensures
            r == (self@ == Some(other@)),
    {
        match self {
            MatchDirective::ETag(t) => {
                let a = t.is_weak() == other.is_weak();
                let x = chars_of(t.text());
                let y = chars_of(other.text());
                let b = crate::text::eq_chars(&x, &y);
                a && b
            },
            MatchDirective::Wildcard => false,
        }
    }
}

impl From<Etag> for MatchDirective {
    fn from(etag: Etag) -> (r: Self) {
        MatchDirective::ETag(etag)
    }
}

impl FromSpecImpl<Etag> for MatchDirective {
    open spec fn obeys_from_spec() -> bool {
        true
    }

    open spec fn from_spec(v: Etag) -> Self {
        MatchDirective::ETag(v)
    }
}

} // verus!
