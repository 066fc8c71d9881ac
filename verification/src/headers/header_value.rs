use vstd::prelude::*;
use vstd::std_specs::cmp::PartialEqSpecImpl;

use crate::errors::Error;
use crate::text::{all_ascii, chars_of, eq_chars, push_char};

verus! {

/// A header value: ASCII text.
#[derive(Debug)]
pub struct HeaderValue {
    inner: String,
}

impl View for HeaderValue {
    type V = Seq<char>;

    closed spec fn view(&self) -> Seq<char> {
        self.inner@
    }
}

/// `char::escape_debug` for an ASCII character, as `{:?}` writes it inside a string.
pub open spec fn debug_escape(c: char) -> Seq<char> {
    if c == '\t' {
        seq!['\\', 't']
    } else if c == '\r' {
        seq!['\\', 'r']
    } else if c == '\n' {
        seq!['\\', 'n']
    } else if c == '\\' {
        seq!['\\', '\\']
    } else if c == '"' {
        seq!['\\', '"']
    } else if c == '\0' {
        seq!['\\', '0']
    } else if (c as u32) < 32 || c as u32 == 127 {
        seq!['\\', 'u', '{'] + hex_digits(c as u32 as nat) + seq!['}']
    } else {
        seq![c]
    }
}

/// Lowercase hexadecimal digits of `n`, without leading zeros.
pub open spec fn hex_digits(n: nat) -> Seq<char>
    decreases n,
{
    if n < 16 {
        seq![hex_char(n)]
    } else {
        hex_digits(n / 16).push(hex_char(n % 16))
    }
}

pub open spec fn hex_char(n: nat) -> char {
    if n < 10 {
        ((n + 48) as u32) as char
    } else {
        ((n + 87) as u32) as char
    }
}

/// `format!("{:?}", s)` for ASCII text `s`.
pub open spec fn debug_str(s: Seq<char>) -> Seq<char>
    decreases s.len(),
{
    if s.len() == 0 {
        seq!['"', '"']
    } else {
        debug_str(s.drop_last()).drop_last() + debug_escape(s.last()) + seq!['"']
    }
}

fn push_hex(out: &mut String, n: u32)
    requires
        n < 256,
    ensures
        final(out)@ == old(out)@ + hex_digits(n as nat),
    decreases n,
{
    if n >= 16 {
        push_hex(out, n / 16);
    }
    let d = n % 16;
    let c = if d < 10 {
        ((d as u8) + 48) as char
    } else {
        ((d as u8) + 87) as char
    };
    proof {
        let u = if d < 10 {
            (d + 48) as u32
        } else {
            (d + 87) as u32
        };
        assert((u as char) as u32 == u);
        assert(c == hex_char(d as nat));
    }
    push_char(out, c);
    proof {
        if n >= 16 {
            assert(hex_digits(n as nat) == hex_digits((n / 16) as nat).push(hex_char(
                (n % 16) as nat,
            )));
        }
    }
    assert(final(out)@ =~= old(out)@ + hex_digits(n as nat)) by {
        if n < 16 {
            assert(hex_digits(n as nat) == seq![hex_char(n as nat)]);
        }
    }
}

/// Appends `debug_escape(c)` to `out`.
pub(crate) fn push_debug_escape(out: &mut String, c: char)
    requires
        (c as u32) < 128,
    ensures
        final(out)@ == old(out)@ + debug_escape(c),
{
    if c == '\t' {
        push_char(out, '\\');
        push_char(out, 't');
    } else if c == '\r' {
        push_char(out, '\\');
        push_char(out, 'r');
    } else if c == '\n' {
        push_char(out, '\\');
        push_char(out, 'n');
    } else if c == '\\' {
        push_char(out, '\\');
        push_char(out, '\\');
    } else if c == '"' {
        push_char(out, '\\');
        push_char(out, '"');
    } else if c == '\0' {
        push_char(out, '\\');
        push_char(out, '0');
    } else if (c as u32) < 32 || c as u32 == 127 {
        push_char(out, '\\');
        push_char(out, 'u');
        push_char(out, '{');
        push_hex(out, c as u32);
        push_char(out, '}');
    } else {
        push_char(out, c);
    }
    assert(final(out)@ =~= old(out)@ + debug_escape(c));
}

/// Appends `debug_str(cs)` to `out`.
pub(crate) fn push_debug_str(out: &mut String, cs: &[char])
    requires
        all_ascii(cs@),
    ensures
        final(out)@ == old(out)@ + debug_str(cs@),
{
    push_char(out, '"');
    let mut i: usize = 0;
    while i < cs.len()
        invariant
            i <= cs@.len(),
            all_ascii(cs@),
            out@ + seq!['"'] == old(out)@ + debug_str(cs@.subrange(0, i as int)),
        decreases cs@.len() - i,
    {
        assert((cs@[i as int] as u32) < 128);
        let ghost before = out@;
        push_debug_escape(out, cs[i]);
        proof {
            let pre = cs@.subrange(0, i as int);
            assert(before =~= (before + seq!['"']).drop_last());
            let nxt = cs@.subrange(0, i + 1);
            assert(nxt.drop_last() =~= pre);
            assert(debug_str(nxt) == debug_str(pre).drop_last() + debug_escape(cs@[i as int])
                + seq!['"']);
            assert(debug_str(pre).len() > 0) by {
                lemma_debug_str_ends(pre);
            }
            assert((old(out)@ + debug_str(pre)).drop_last() =~= old(out)@ + debug_str(
                pre,
            ).drop_last());
            assert(out@ + seq!['"'] =~= old(out)@ + debug_str(nxt));
        }
        i = i + 1;
    }
    push_char(out, '"');
    assert(cs@.subrange(0, cs@.len() as int) =~= cs@);
}

pub proof fn lemma_debug_str_ends(s: Seq<char>)
    ensures
        debug_str(s).len() >= 2,
        debug_str(s).last() == '"',
        debug_str(s)[0] == '"',
    decreases s.len(),
{
    if s.len() > 0 {
        lemma_debug_str_ends(s.drop_last());
    }
}

impl HeaderValue {
    #[verifier::type_invariant]
    spec fn inv(&self) -> bool {
        all_ascii(self.inner@)
    }

    /// Create a new `HeaderValue` from a Vec of ASCII bytes.
    ///
    /// Fails if the bytes are not valid ASCII.
    pub fn from_bytes(bytes: Vec<u8>) -> (r: Result<Self, Error>)
        ensures
            match r {
                Ok(v) => (forall|i: int| 0 <= i < bytes@.len() ==> #[trigger] bytes@[i] < 128)
                    && v@ == Seq::new(bytes@.len(), |i: int| bytes@[i] as char),
                Err(e) => (exists|i: int| 0 <= i < bytes@.len() && #[trigger] bytes@[i] >= 128)
                    && e == Error::Status(500, "Bytes should be valid ASCII"),
            },
    {
        let ghost chars = Seq::new(bytes@.len(), |i: int| bytes@[i] as char);
        let mut s = String::new();
        let mut i: usize = 0;
        while i < bytes.len()
            invariant
                i <= bytes@.len(),
                chars == Seq::new(bytes@.len(), |i: int| bytes@[i] as char),
                s@ == chars.subrange(0, i as int),
                forall|j: int| 0 <= j < i ==> #[trigger] bytes@[j] < 128,
            decreases bytes@.len() - i,
        {
            if bytes[i] >= 128 {
                return Err(Error::Status(500, "Bytes should be valid ASCII"));
            }
            push_char(&mut s, bytes[i] as char);
            i = i + 1;
        }
        proof {
            assert(s@ =~= chars);
            assert forall|j: int| 0 <= j < chars.len() implies (#[trigger] chars[j] as u32) < 128 by {
                assert(bytes@[j] < 128);
            }
        }
        Ok(HeaderValue { inner: s })
    }

    /// Create a new `HeaderValue` from a string; it must be ASCII.
    pub fn from_str(s: &str) -> (r: Result<Self, Error>)
        ensures
            match r {
                Ok(v) => all_ascii(s@) && v@ == s@,
                Err(e) => !all_ascii(s@) && e == Error::Status(500, "String slice should be valid ASCII"),
            },
    {
        let cs = chars_of(s);
        let mut i: usize = 0;
        while i < cs.len()
            invariant
                cs@ == s@,
                i <= cs@.len(),
                forall|j: int| 0 <= j < i ==> (#[trigger] cs@[j] as u32) < 128,
            decreases cs@.len() - i,
        {
            if (cs[i] as u32) >= 128 {
                return Err(Error::Status(500, "String slice should be valid ASCII"));
            }
            i = i + 1;
        }
        Ok(HeaderValue { inner: s.to_owned() })
    }

    /// A value from text that is already known to be ASCII.
    pub(crate) fn from_ascii_string(s: String) -> (r: Self)
        requires
            all_ascii(s@),
        ensures
            r@ == s@,
    {
        HeaderValue { inner: s }
    }

    /// Create a new `HeaderValue` from a static string, which must be ASCII.
    pub fn from_static_str(value: &'static str) -> (r: Self)
        requires
            all_ascii(value@),
        ensures
            r@ == value@,
    {
        HeaderValue { inner: value.to_owned() }
    }

    /// Get the header value as a `&str`.
    pub fn as_str(&self) -> (r: &str)
        ensures
            r@ == self@,
            all_ascii(r@),
    {
        proof {
            use_type_invariant(self);
        }
        self.inner.as_str()
    }

    /// The value as `format!("{:?}", value)` writes it: quoted and escaped.
    pub fn debug_string(&self) -> (r: String)
        ensures
            r@ == debug_str(self@),
    {
        let cs = chars_of(self.as_str());
        let mut out = String::new();
        push_debug_str(&mut out, cs.as_slice());
        assert(out@ =~= debug_str(self@));
        out
    }

    /// Whether the value is exactly the text `other`.
    pub fn eq_str(&self, other: &str) -> (r: bool)
        ensures
            r == (self@ == other@),
    {
        let a = chars_of(self.as_str());
        let b = chars_of(other);
        eq_chars(&a, &b)
    }
}

impl Clone for HeaderValue {
    fn clone(&self) -> (r: Self)
        ensures
            r@ == self@,
    {
        proof {
            use_type_invariant(self);
        }
        HeaderValue { inner: self.inner.clone() }
    }
}

impl PartialEq for HeaderValue {
    fn eq(&self, other: &Self) -> (r: bool) {
        self.inner == other.inner
    }
}

impl Eq for HeaderValue {
}

impl PartialEqSpecImpl for HeaderValue {
    open spec fn obeys_eq_spec() -> bool {
        true
    }

    open spec fn eq_spec(&self, other: &HeaderValue) -> bool {
        self@ == other@
    }
}

impl<'a> PartialEq<&'a str> for HeaderValue {
    fn eq(&self, other: &&'a str) -> (r: bool) {
        self.eq_str(*other)
    }
}

impl<'a> PartialEqSpecImpl<&'a str> for HeaderValue {
    open spec fn obeys_eq_spec() -> bool {
        true
    }

    open spec fn eq_spec(&self, other: &&'a str) -> bool {
        self@ == other@
    }
}

} // verus!
