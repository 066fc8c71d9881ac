use vstd::prelude::*;

use crate::headers::HeaderValue;
use crate::text::{all_ascii, chars_of, eq_chars, trim, trim_bounds, string_from_chars};

verus! {

/// Available compression algorithms.
#[non_exhaustive]
#[derive(Debug, Clone, Copy, Eq, PartialEq, Structural)]
pub enum Encoding {
    /// The Gzip encoding.
    Gzip,
    /// The Deflate encoding.
    Deflate,
    /// The Brotli encoding.
    Brotli,
    /// The Zstd encoding.
    Zstd,
    /// No encoding.
    Identity,
}

/// The token of an encoding.
pub open spec fn encoding_name(e: Encoding) -> Seq<char> {
    match e {
        Encoding::Gzip => "gzip"@,
        Encoding::Deflate => "deflate"@,
        Encoding::Brotli => "br"@,
        Encoding::Zstd => "zstd"@,
        Encoding::Identity => "identity"@,
    }
}

/// The encoding whose token is `s` once trimmed of whitespace.
pub open spec fn encoding_of(s: Seq<char>) -> Option<Encoding> {
    let t = trim(s);
    if t == "gzip"@ {
        Some(Encoding::Gzip)
    } else if t == "deflate"@ {
        Some(Encoding::Deflate)
    } else if t == "br"@ {
        Some(Encoding::Brotli)
    } else if t == "zstd"@ {
        Some(Encoding::Zstd)
    } else if t == "identity"@ {
        Some(Encoding::Identity)
    } else {
        None
    }
}

/// The tokens are ASCII, and each names its own encoding.
pub proof fn lemma_encoding_names(e: Encoding)
    ensures
        all_ascii(encoding_name(e)),
        encoding_name(e).len() > 0,
        trim(encoding_name(e)) == encoding_name(e),
        encoding_of(encoding_name(e)) == Some(e),
        forall|i: int| 0 <= i < encoding_name(e).len() ==> #[trigger] encoding_name(e)[i] != ',',
{
    reveal_strlit("gzip");
    reveal_strlit("deflate");
    reveal_strlit("br");
    reveal_strlit("zstd");
    reveal_strlit("identity");
    let n = encoding_name(e);
    assert(crate::text::trim_start(n) == n);
    assert(crate::text::trim_end(n) == n);
    assert("gzip"@ != "deflate"@ && "gzip"@ != "br"@ && "gzip"@ != "zstd"@ && "gzip"@ != "identity"@
        && "deflate"@ != "br"@ && "deflate"@ != "zstd"@ && "deflate"@ != "identity"@ && "br"@
        != "zstd"@ && "br"@ != "identity"@ && "zstd"@ != "identity"@) by {
        assert("gzip"@[0] != "deflate"@[0]);
        assert("gzip"@[0] != "br"@[0]);
        assert("gzip"@[0] != "zstd"@[0]);
        assert("gzip"@[0] != "identity"@[0]);
        assert("deflate"@[0] != "br"@[0]);
        assert("deflate"@[0] != "zstd"@[0]);
        assert("deflate"@[0] != "identity"@[0]);
        assert("br"@[0] != "zstd"@[0]);
        assert("br"@[0] != "identity"@[0]);
        assert("zstd"@[0] != "identity"@[0]);
    }
}

/// Law: each encoding is written as its IANA content-coding token (`gzip`,
/// `deflate`, `br`, `zstd`, `identity`), and a text names an encoding
/// exactly when, trimmed of whitespace, it is that token.
pub proof fn law_encoding_tokens(s: Seq<char>)
    ensures
        encoding_name(Encoding::Gzip) == seq!['g', 'z', 'i', 'p'],
        encoding_name(Encoding::Deflate) == seq!['d', 'e', 'f', 'l', 'a', 't', 'e'],
        encoding_name(Encoding::Brotli) == seq!['b', 'r'],
        encoding_name(Encoding::Zstd) == seq!['z', 's', 't', 'd'],
        encoding_name(Encoding::Identity) == seq!['i', 'd', 'e', 'n', 't', 'i', 't', 'y'],
        encoding_of(s) == Some(Encoding::Gzip) <==> trim(s) == seq!['g', 'z', 'i', 'p'],
        encoding_of(s) == Some(Encoding::Deflate) <==> trim(s) == seq!['d', 'e', 'f', 'l', 'a', 't', 'e'],
        encoding_of(s) == Some(Encoding::Brotli) <==> trim(s) == seq!['b', 'r'],
        encoding_of(s) == Some(Encoding::Zstd) <==> trim(s) == seq!['z', 's', 't', 'd'],
        encoding_of(s) == Some(Encoding::Identity) <==> trim(s) == seq!['i', 'd', 'e', 'n', 't', 'i', 't', 'y'],
{
    reveal_strlit("gzip");
    reveal_strlit("deflate");
    reveal_strlit("br");
    reveal_strlit("zstd");
    reveal_strlit("identity");
    lemma_encoding_names(Encoding::Gzip);
    assert("gzip"@ =~= seq!['g', 'z', 'i', 'p']);
    assert("deflate"@ =~= seq!['d', 'e', 'f', 'l', 'a', 't', 'e']);
    assert("br"@ =~= seq!['b', 'r']);
    assert("zstd"@ =~= seq!['z', 's', 't', 'd']);
    assert("identity"@ =~= seq!['i', 'd', 'e', 'n', 't', 'i', 't', 'y']);
}

impl Encoding {
    /// Parses a given string into its corresponding encoding; unknown or
    /// empty tokens give `None`.
    pub fn from_str(s: &str) -> (r: Option<Encoding>)
        ensures
            r == encoding_of(s@),
    {
        let cs = chars_of(s);
        assert(cs@.subrange(0, cs@.len() as int) =~= s@);
        Self::from_chars(cs.as_slice(), 0, cs.len())
    }

    /// `from_str` on `cs[from..to]`.
    pub(crate) fn from_chars(cs: &[char], from: usize, to: usize) -> (r: Option<Encoding>)
        requires
            from <= to <= cs@.len(),
        ensures
            r == encoding_of(cs@.subrange(from as int, to as int)),
    {
        let (a, b) = trim_bounds(cs, from, to);
        let t = string_from_chars(cs, a, b);
        let t = chars_of(t.as_str());
        if eq_chars(&t, &chars_of("gzip")) {
            Some(Encoding::Gzip)
        } else if eq_chars(&t, &chars_of("deflate")) {
            Some(Encoding::Deflate)
        } else if eq_chars(&t, &chars_of("br")) {
            Some(Encoding::Brotli)
        } else if eq_chars(&t, &chars_of("zstd")) {
            Some(Encoding::Zstd)
        } else if eq_chars(&t, &chars_of("identity")) {
            Some(Encoding::Identity)
        } else {
            None
        }
    }

    /// The token of this encoding.
    pub fn as_str(&self) -> (r: &'static str)
        ensures
            r@ == encoding_name(*self),
    {
        match self {
            Encoding::Gzip => "gzip",
            Encoding::Deflate => "deflate",
            Encoding::Brotli => "br",
            Encoding::Zstd => "zstd",
            Encoding::Identity => "identity",
        }
    }

    /// The token of this encoding as a header value.
    pub fn to_header_value(&self) -> (r: HeaderValue)
        ensures
            r@ == encoding_name(*self),
    {
        proof {
            lemma_encoding_names(*self);
        }
        HeaderValue::from_static_str(self.as_str())
    }
}

} // verus!
