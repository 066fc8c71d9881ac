use vstd::prelude::*;

use crate::headers::HeaderValue;
use crate::text::{all_ascii, chars_of, eq_chars, trim, trim_bounds, string_from_chars};

verus! {

/// Available compression algorithms.
#[non_exhaustive]
#[derive(Debug, Clone, Copy, Eq, PartialEq, Structural)]
pub enum EncodingDirective {
    /// The Gzip encoding.
    Gzip,
    /// The Deflate encoding.
    Deflate,
    /// The Brotli encoding.
    Brotli,
    /// The Zstd encoding.
    Zstd,
    /// No encoding.
    Identity,
}

/// The token of an encoding directive.
pub open spec fn encoding_directive_name(e: EncodingDirective) -> Seq<char> {
    match e {
        EncodingDirective::Gzip => "gzip"@,
        EncodingDirective::Deflate => "deflate"@,
        EncodingDirective::Brotli => "br"@,
        EncodingDirective::Zstd => "zstd"@,
        EncodingDirective::Identity => "identity"@,
    }
}

/// The encoding whose token is `s` once trimmed of whitespace.
pub open spec fn encoding_directive_of(s: Seq<char>) -> Option<EncodingDirective> {
    let t = trim(s);
    if t == "gzip"@ {
        Some(EncodingDirective::Gzip)
    } else if t == "deflate"@ {
        Some(EncodingDirective::Deflate)
    } else if t == "br"@ {
        Some(EncodingDirective::Brotli)
    } else if t == "zstd"@ {
        Some(EncodingDirective::Zstd)
    } else if t == "identity"@ {
        Some(EncodingDirective::Identity)
    } else {
        None
    }
}

/// The tokens are ASCII, and each names its own encoding.
pub proof fn lemma_encoding_directive_names(e: EncodingDirective)
    ensures
        all_ascii(encoding_directive_name(e)),
        encoding_directive_name(e).len() > 0,
        trim(encoding_directive_name(e)) == encoding_directive_name(e),
        encoding_directive_of(encoding_directive_name(e)) == Some(e),
        forall|i: int| 0 <= i < encoding_directive_name(e).len() ==> #[trigger] encoding_directive_name(e)[i] != ',',
{
    reveal_strlit("gzip");
    reveal_strlit("deflate");
    reveal_strlit("br");
    reveal_strlit("zstd");
    reveal_strlit("identity");
    let n = encoding_directive_name(e);
    assert(crate::text::trim_start(n) == n);
    assert(crate::text::trim_end(n) == n);
    assert("gzip"@ != "deflate"@ && "gzip"@ != "br"@ && "gzip"@ != "zstd"@ && "gzip"@ != "identity"@
        && "deflate"@ != "br"@ && "deflate"@ != "zstd"@ && "deflate"@ != "identity"@ && "br"@
        != "zstd"@ && "br"@ != "identity"@ && "zstd"@ != "identity"@) by {
        assert("gzip"@[0] != "deflate"@[0]);
        assert("gzip"@[0] != "br"@[0]);
        assert("gzip"@[0] != "zstd"@[0]);
        assert("gzip"@[0] != "identity"@[0]);
        assert("deflate"@[0] != "br"@[0]);
        assert("deflate"@[0] != "zstd"@[0]);
        assert("deflate"@[0] != "identity"@[0]);
        assert("br"@[0] != "zstd"@[0]);
        assert("br"@[0] != "identity"@[0]);
        assert("zstd"@[0] != "identity"@[0]);
    }
}

/// Law: each encoding directive is written as its IANA content-coding token
/// (`gzip`, `deflate`, `br`, `zstd`, `identity`), and a text names a
/// directive exactly when, trimmed of whitespace, it is that token.
pub proof fn law_encoding_directive_tokens(s: Seq<char>)
    ensures
        encoding_directive_name(EncodingDirective::Gzip) == seq!['g', 'z', 'i', 'p'],
        encoding_directive_name(EncodingDirective::Deflate) == seq!['d', 'e', 'f', 'l', 'a', 't', 'e'],
        encoding_directive_name(EncodingDirective::Brotli) == seq!['b', 'r'],
        encoding_directive_name(EncodingDirective::Zstd) == seq!['z', 's', 't', 'd'],
        encoding_directive_name(EncodingDirective::Identity) == seq!['i', 'd', 'e', 'n', 't', 'i', 't', 'y'],
        encoding_directive_of(s) == Some(EncodingDirective::Gzip) <==> trim(s) == seq!['g', 'z', 'i', 'p'],
        encoding_directive_of(s) == Some(EncodingDirective::Deflate) <==> trim(s) == seq!['d', 'e', 'f', 'l', 'a', 't', 'e'],
        encoding_directive_of(s) == Some(EncodingDirective::Brotli) <==> trim(s) == seq!['b', 'r'],
        encoding_directive_of(s) == Some(EncodingDirective::Zstd) <==> trim(s) == seq!['z', 's', 't', 'd'],
        encoding_directive_of(s) == Some(EncodingDirective::Identity) <==> trim(s) == seq!['i', 'd', 'e', 'n', 't', 'i', 't', 'y'],
{
    reveal_strlit("gzip");
    reveal_strlit("deflate");
    reveal_strlit("br");
    reveal_strlit("zstd");
    reveal_strlit("identity");
    lemma_encoding_directive_names(EncodingDirective::Gzip);
    assert("gzip"@ =~= seq!['g', 'z', 'i', 'p']);
    assert("deflate"@ =~= seq!['d', 'e', 'f', 'l', 'a', 't', 'e']);
    assert("br"@ =~= seq!['b', 'r']);
    assert("zstd"@ =~= seq!['z', 's', 't', 'd']);
    assert("identity"@ =~= seq!['i', 'd', 'e', 'n', 't', 'i', 't', 'y']);
}

impl EncodingDirective {
    /// Parses a given string into its corresponding encoding; unknown or
    /// empty tokens give `None`.
    pub fn from_str(s: &str) -> (r: Option<EncodingDirective>)
        ensures
            r == encoding_directive_of(s@),
    {
        let cs = chars_of(s);
        assert(cs@.subrange(0, cs@.len() as int) =~= s@);
        Self::from_chars(cs.as_slice(), 0, cs.len())
    }

    /// `from_str` on `cs[from..to]`.
    pub(crate) fn from_chars(cs: &[char], from: usize, to: usize) -> (r: Option<EncodingDirective>)
        requires
            from <= to <= cs@.len(),
        ensures
            r == encoding_directive_of(cs@.subrange(from as int, to as int)),
    {
        let (a, b) = trim_bounds(cs, from, to);
        let t = string_from_chars(cs, a, b);
        let t = chars_of(t.as_str());
        if eq_chars(&t, &chars_of("gzip")) {
            Some(EncodingDirective::Gzip)
        } else if eq_chars(&t, &chars_of("deflate")) {
            Some(EncodingDirective::Deflate)
        } else if eq_chars(&t, &chars_of("br")) {
            Some(EncodingDirective::Brotli)
        } else if eq_chars(&t, &chars_of("zstd")) {
            Some(EncodingDirective::Zstd)
        } else if eq_chars(&t, &chars_of("identity")) {
            Some(EncodingDirective::Identity)
        } else {
            None
        }
    }

    /// The token of this encoding.
    pub fn as_str(&self) -> (r: &'static str)
        ensures
            r@ == encoding_directive_name(*self),
    {
        match self {
            EncodingDirective::Gzip => "gzip",
            EncodingDirective::Deflate => "deflate",
            EncodingDirective::Brotli => "br",
            EncodingDirective::Zstd => "zstd",
            EncodingDirective::Identity => "identity",
        }
    }

    /// The token of this encoding as a header value.
    pub fn to_header_value(&self) -> (r: HeaderValue)
        ensures
            r@ == encoding_directive_name(*self),
    {
        proof {
            lemma_encoding_directive_names(*self);
        }
        HeaderValue::from_static_str(self.as_str())
    }
}

} // verus!
