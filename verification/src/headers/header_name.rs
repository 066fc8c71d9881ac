use vstd::prelude::*;
use vstd::std_specs::cmp::PartialEqSpecImpl;

use crate::headers::ParseError;
use crate::text::{all_ascii, chars_of, lowercase, lowercase_string, no_upper, lower, is_upper};

verus! {

/// A header name: ASCII, with no uppercase letter.
#[derive(Debug)]
pub struct HeaderName {
    name: String,
}

impl View for HeaderName {
    type V = Seq<char>;

    closed spec fn view(&self) -> Seq<char> {
        self.name@
    }
}

/// A name that a `HeaderName` can hold.
pub open spec fn valid_name(s: Seq<char>) -> bool {
    all_ascii(s) && no_upper(s)
}

/// Lowercasing ASCII text gives a valid name.
pub proof fn lemma_lowercase_valid(s: Seq<char>)
    requires
        all_ascii(s),
    ensures
        valid_name(lowercase(s)),
{
    assert forall|i: int| 0 <= i < lowercase(s).len() implies (#[trigger] lowercase(s)[i] as u32)
        < 128 && !is_upper(lowercase(s)[i]) by {
        assert(lowercase(s)[i] == lower(s[i]));
        assert((s[i] as u32) < 128);
    }
}

impl HeaderName {
    #[verifier::type_invariant]
    spec fn inv(&self) -> bool {
        valid_name(self.name@)
    }

    /// Create a new `HeaderName` from ASCII bytes, lowercasing them.
    pub fn from_ascii(bytes: Vec<u8>) -> (r: Result<Self, ParseError>)
        ensures
            match r {
                Ok(n) => (forall|i: int| 0 <= i < bytes@.len() ==> #[trigger] bytes@[i] < 128)
                    && n@ == lowercase(Seq::new(bytes@.len(), |i: int| bytes@[i] as char)),
                Err(_) => exists|i: int| 0 <= i < bytes@.len() && #[trigger] bytes@[i] >= 128,
            },
    {
        let ghost chars = Seq::new(bytes@.len(), |i: int| bytes@[i] as char);
        let mut cs: Vec<char> = Vec::new();
        let mut i: usize = 0;
        while i < bytes.len()
            invariant
                i <= bytes@.len(),
                chars == Seq::new(bytes@.len(), |i: int| bytes@[i] as char),
                cs@ == chars.subrange(0, i as int),
                forall|j: int| 0 <= j < i ==> #[trigger] bytes@[j] < 128,
            decreases bytes@.len() - i,
        {
            if bytes[i] >= 128 {
                return Err(ParseError::new());
            }
            cs.push(bytes[i] as char);
            i = i + 1;
        }
        proof {
            assert(cs@ =~= chars);
            assert forall|j: int| 0 <= j < chars.len() implies (#[trigger] chars[j] as u32) < 128 by {
                assert(bytes@[j] < 128);
            }
            lemma_lowercase_valid(chars);
        }
        Ok(HeaderName { name: lowercase_string(cs.as_slice(), 0, cs.len()) })
    }

    /// Create a new `HeaderName` from a string: it must be ASCII, and is lowercased.
    pub fn from_str(s: &str) -> (r: Result<Self, ParseError>)
        ensures
            match r {
                Ok(n) => all_ascii(s@) && n@ == lowercase(s@),
                Err(_) => !all_ascii(s@),
            },
    {
        let cs = chars_of(s);
        let mut i: usize = 0;
        while i < cs.len()
            invariant
                cs@ == s@,
                i <= cs@.len(),
                forall|j: int| 0 <= j < i ==> (#[trigger] cs@[j] as u32) < 128,
            decreases cs@.len() - i,
        {
            if (cs[i] as u32) >= 128 {
                return Err(ParseError::new());
            }
            i = i + 1;
        }
        proof {
            lemma_lowercase_valid(s@);
        }
        assert(cs@.subrange(0, cs@.len() as int) =~= cs@);
        Ok(HeaderName { name: lowercase_string(cs.as_slice(), 0, cs.len()) })
    }

    /// Converts a string that is already a valid (lowercase ASCII) name.
    pub fn from_lowercase_str(s: &str) -> (r: Self)
        requires
            valid_name(s@),
        ensures
            r@ == s@,
    {
        HeaderName { name: s.to_owned() }
    }

    /// Returns the header name as a `&str`.
    pub fn as_str(&self) -> (r: &str)
        ensures
            r@ == self@,
            valid_name(r@),
    {
        proof {
            use_type_invariant(self);
        }
        self.name.as_str()
    }
}

impl Clone for HeaderName {
    fn clone(&self) -> (r: Self)
        ensures
            r@ == self@,
    {
        proof {
            use_type_invariant(self);
        }
        HeaderName { name: self.name.clone() }
    }
}

impl PartialEq for HeaderName {
    fn eq(&self, other: &Self) -> (r: bool) {
        self.name == other.name
    }
}

impl Eq for HeaderName {
}

impl<'a> PartialEq<&'a str> for HeaderName {
    fn eq(&self, other: &&'a str) -> (r: bool) {
        match HeaderName::from_str(*other) {
            Ok(n) => self.name == n.name,
            Err(_) => false,
        }
    }
}

impl<'a> PartialEqSpecImpl<&'a str> for HeaderName {
    open spec fn obeys_eq_spec() -> bool {
        true
    }

    open spec fn eq_spec(&self, other: &&'a str) -> bool {
        all_ascii(other@) && self@ == lowercase(other@)
    }
}

impl PartialEqSpecImpl for HeaderName {
    open spec fn obeys_eq_spec() -> bool {
        true
    }

    open spec fn eq_spec(&self, other: &HeaderName) -> bool {
        self@ == other@
    }
}

} // verus!
