//! The directives of a `Vary` header.

use vstd::prelude::*;

use crate::errors::Error;
use crate::headers::{valid_name, HeaderName, HeaderValue};
use crate::text::{all_ascii, chars_of, lowercase, string_from_chars, trim, trim_bounds};
use vstd::std_specs::cmp::PartialEqSpecImpl;
use vstd::std_specs::convert::FromSpecImpl;

verus! {

/// What parsing a `Vary` directive gives: the wildcard (`None`) for `*`,
/// and otherwise a header name, which must be ASCII and is lowercased.
pub open spec fn vary_directive_of(s: Seq<char>) -> Result<Option<Seq<char>>, Error> {
    let t = trim(s);
    if t == seq!['*'] {
        Ok(None)
    } else if all_ascii(t) {
        Ok(Some(lowercase(t)))
    } else {
        Err(Error::Status(500, "Error parsing a string into an HTTP value"))
    }
}

/// The header text of a directive.
pub open spec fn vary_directive_text(d: Option<Seq<char>>) -> Seq<char> {
    match d {
        Some(n) => n,
        None => seq!['*'],
    }
}

/// Law: the text of a directive parses back to the same directive, unless
/// it is a header name that reads as the wildcard or has whitespace at
/// either end.
pub proof fn law_vary_directive_round_trip(d: Option<Seq<char>>)
    requires
        d matches Some(n) ==> valid_name(n) && n != seq!['*'] && trim(n) == n,
    ensures
        vary_directive_of(vary_directive_text(d)) == Ok::<Option<Seq<char>>, Error>(d),
{
    match d {
        None => {
            let t = seq!['*'];
            crate::text::lemma_trim_unchanged(t);
        },
        Some(n) => {
            assert(lowercase(n) =~= n) by {
                assert forall|i: int| 0 <= i < n.len() implies lowercase(n)[i] == n[i] by {
                    assert(!crate::text::is_upper(n[i]));
                }
            }
        },
    }
}

/// An HeaderName-based match directive.
#[derive(Debug, Clone)]
pub enum VaryDirective {
    /// An HeaderName.
    HeaderName(HeaderName),
    /// Vary any resource.
    Wildcard,
}

impl View for VaryDirective {
    /// The header name, or `None` for the wildcard.
    type V = Option<Seq<char>>;

    open spec fn view(&self) -> Option<Seq<char>> {
        match self {
            VaryDirective::HeaderName(n) => Some(n@),
            VaryDirective::Wildcard => None,
        }
    }
}

impl VaryDirective {
    /// Parses a directive from a string, trimmed of whitespace.
    pub fn from_str(s: &str) -> (r: Result<Self, Error>)
        ensures
            match r {
                Ok(d) => vary_directive_of(s@) == Ok::<Option<Seq<char>>, Error>(d@),
                Err(e) => vary_directive_of(s@) == Err::<Option<Seq<char>>, Error>(e),
            },
    {
        let cs = chars_of(s);
        assert(cs@.subrange(0, cs@.len() as int) =~= s@);
        let (a, b) = trim_bounds(cs.as_slice(), 0, cs.len());
        let ghost t = cs@.subrange(a as int, b as int);
        if b - a == 1 && cs[a] == '*' {
            assert(t =~= seq!['*']);
            return Ok(VaryDirective::Wildcard);
        }
        assert(t != seq!['*']) by {
            if t == seq!['*'] {
                assert(t[0] == cs@[a as int]);
            }
        }
        let text = string_from_chars(cs.as_slice(), a, b);
        match HeaderName::from_str(text.as_str()) {
            Ok(n) => Ok(VaryDirective::HeaderName(n)),
            Err(_) => Err(Error::Status(500, "Error parsing a string into an HTTP value")),
        }
    }

    /// The header value of the directive.
    pub fn value(&self) -> (r: HeaderValue)
        ensures
            r@ == vary_directive_text(self@),
    {
        match self {
            VaryDirective::HeaderName(n) => {
                let s = n.as_str();
                assert(valid_name(s@));
                HeaderValue::from_ascii_string(s.to_owned())
            },
            VaryDirective::Wildcard => {
                proof {
                    reveal_strlit("*");
                }
                let r = HeaderValue::from_static_str("*");
                assert(r@ =~= seq!['*']);
                r
            },
        }
    }
}

impl PartialEq for VaryDirective {
    fn eq(&self, other: &Self) -> (r: bool) {
        match (self, other) {
            (VaryDirective::HeaderName(a), VaryDirective::HeaderName(b)) => a == b,
            (VaryDirective::Wildcard, VaryDirective::Wildcard) => true,
            _ => false,
        }
    }
}

impl PartialEqSpecImpl for VaryDirective {
    open spec fn obeys_eq_spec() -> bool {
        true
    }

    open spec fn eq_spec(&self, other: &VaryDirective) -> bool {
        self@ == other@
    }
}

impl PartialEq<HeaderName> for VaryDirective {
    fn eq(&self, other: &HeaderName) -> (r: bool) {
        match self {
            VaryDirective::HeaderName(n) => n == other,
            VaryDirective::Wildcard => false,
        }
    }
}

impl PartialEqSpecImpl<HeaderName> for VaryDirective {
    open spec fn obeys_eq_spec() -> bool {
        true
    }

    open spec fn eq_spec(&self, other: &HeaderName) -> bool {
        self@ == Some(other@)
    }
}

impl<'a> PartialEq<&'a str> for VaryDirective {
    fn eq(&self, other: &&'a str) -> (r: bool) {
        match self {
            VaryDirective::HeaderName(n) => match HeaderName::from_str(*other) {
                Ok(m) => n.eq(&m),
                Err(_) => false,
            },
            VaryDirective::Wildcard => {
                proof {
                    reveal_strlit("*");
                }
                let cs = chars_of(*other);
                let r = cs.len() == 1 && cs[0] == '*';
                assert(r == (other@ == seq!['*'])) by {
                    if r {
                        assert(cs@ =~= seq!['*']);
                    }
                    if other@ == seq!['*'] {
                        assert(cs@[0] == '*');
                    }
                }
                r
            },
        }
    }
}

impl<'a> PartialEqSpecImpl<&'a str> for VaryDirective {
    open spec fn obeys_eq_spec() -> bool {
        true
    }

    open spec fn eq_spec(&self, other: &&'a str) -> bool {
        match self@ {
            Some(n) => all_ascii(other@) && n == lowercase(other@),
            None => other@ == seq!['*'],
        }
    }
}

impl From<HeaderName> for VaryDirective {
    fn from(name: HeaderName) -> (r: Self) {
        VaryDirective::HeaderName(name)
    }
}

impl FromSpecImpl<HeaderName> for VaryDirective {
    open spec fn obeys_from_spec() -> bool {
        true
    }

    open spec fn from_spec(v: HeaderName) -> Self {
        VaryDirective::HeaderName(v)
    }
}

} // verus!
