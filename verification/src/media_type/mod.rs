//! IANA Media Types.

mod constants;
mod parse;

pub use constants::{
    any, byte_stream, css, form, html, ico, javascript, jpeg, json, multipart_form, plain, png,
    sse, svg, wasm, xml, plain_view, utf8_view,
};
pub use parse::{
    all_token, insert_param, is_http_ws, is_token_char, name_len, param_index, parse_media_type,
    parse_params, ws_len, MediaTypeParse, ParamsParse, law_media_type_round_trip, plain_params,
    lemma_lowercase_no_upper,
};

use vstd::prelude::*;

use crate::errors::Error;
use crate::headers::{HeaderValue, HeaderValues, ToHeaderValues};
use crate::text::{
    all_ascii, chars_of, find, lemma_find_none, lemma_find_some, lowercase, push_char, push_str,
    string_from_chars,
};
use vstd::std_specs::cmp::PartialEqSpecImpl;

verus! {

/// The parameters of a media type.
pub enum ParamsView {
    /// No parameters.
    NoParams,
    /// The single parameter `charset=utf-8`.
    Utf8,
    /// Name and value pairs, in the order they were first given.
    List(Seq<(Seq<char>, Seq<char>)>),
}

/// What a media type holds: its type, its subtype and its parameters.
pub struct MediaTypeView {
    pub basetype: Seq<char>,
    pub subtype: Seq<char>,
    pub params: ParamsView,
}

/// The essence of a media type: `type/subtype`.
pub open spec fn essence_of(m: MediaTypeView) -> Seq<char> {
    m.basetype + seq!['/'] + m.subtype
}

/// Name and value pairs written `name=value`, separated by `; ` as the
/// media type grammar separates parameters, so that the text of a media type
/// with several parameters parses back.
pub open spec fn join_params(ps: Seq<(Seq<char>, Seq<char>)>) -> Seq<char>
    decreases ps.len(),
{
    if ps.len() == 0 {
        seq![]
    } else if ps.len() == 1 {
        ps[0].0 + seq!['='] + ps[0].1
    } else {
        join_params(ps.drop_last()) + seq![';', ' '] + ps.last().0 + seq!['='] + ps.last().1
    }
}

/// The text of a media type, as `to_string` writes it.
pub open spec fn media_type_text(m: MediaTypeView) -> Seq<char> {
    essence_of(m) + match m.params {
        ParamsView::NoParams => seq![],
        ParamsView::Utf8 => seq![';', ' ', 'c', 'h', 'a', 'r', 's', 'e', 't', '=', 'u', 't', 'f', '-', '8'],
        ParamsView::List(ps) => seq![';', ' '] + join_params(ps),
    }
}

/// Every name and value of a parameter list is a token.
pub open spec fn params_are_tokens(ps: Seq<(Seq<char>, Seq<char>)>) -> bool {
    forall|i: int| 0 <= i < ps.len() ==> all_token(#[trigger] ps[i].0) && all_token(ps[i].1)
}

/// The value of parameter `name`: the pair's value for a list, and `utf-8`
/// for `charset` of a UTF-8 media type.
pub open spec fn param_of(m: MediaTypeView, name: Seq<char>) -> Option<Seq<char>> {
    match m.params {
        ParamsView::NoParams => None,
        ParamsView::Utf8 => if lowercase(name) == seq!['c', 'h', 'a', 'r', 's', 'e', 't'] {
            Some(seq!['u', 't', 'f', '-', '8'])
        } else {
            None
        },
        ParamsView::List(ps) => match param_index(ps, lowercase(name)) {
            Some(i) => Some(ps[i as int].1),
            None => None,
        },
    }
}

pub proof fn lemma_token_ascii(s: Seq<char>)
    requires
        all_token(s),
    ensures
        all_ascii(s),
{
    assert forall|i: int| 0 <= i < s.len() implies (#[trigger] s[i] as u32) < 128 by {
        assert(is_token_char(s[i]));
    }
}

/// A parameter name.
#[derive(Debug, Clone, PartialEq, Eq, Hash)]
pub struct ParamName {
    inner: String,
}

impl View for ParamName {
    type V = Seq<char>;

    closed spec fn view(&self) -> Seq<char> {
        self.inner@
    }
}

impl ParamName {
    pub(crate) fn from_string(inner: String) -> (r: Self)
        ensures
            r@ == inner@,
    {
        ParamName { inner }
    }

    /// Get the name as a `&str`
    pub fn as_str(&self) -> (r: &str)
        ensures
            r@ == self@,
    {
        self.inner.as_str()
    }

    /// Create a new name: the text must be ASCII, and is lowercased.
    pub fn from_str(s: &str) -> (r: Result<Self, Error>)
        ensures
            match r {
                Ok(n) => all_ascii(s@) && n@ == lowercase(s@),
                Err(e) => !all_ascii(s@) && e == Error::Status(500, "String slice should be valid ASCII"),
            },
    {
        let cs = chars_of(s);
        assert(cs@.subrange(0, cs@.len() as int) =~= s@);
        if !crate::text::all_ascii_range(cs.as_slice(), 0, cs.len()) {
            return Err(Error::Status(500, "String slice should be valid ASCII"));
        }
        Ok(ParamName { inner: crate::text::lowercase_string(cs.as_slice(), 0, cs.len()) })
    }
}

/// A parameter value.
#[derive(Debug, Clone, PartialEq, Eq, Hash)]
pub struct ParamValue {
    inner: String,
}

impl View for ParamValue {
    type V = Seq<char>;

    closed spec fn view(&self) -> Seq<char> {
        self.inner@
    }
}

impl ParamValue {
    pub(crate) fn from_string(inner: String) -> (r: Self)
        ensures
            r@ == inner@,
    {
        ParamValue { inner }
    }

    /// Get the value as a `&str`
    pub fn as_str(&self) -> (r: &str)
        ensures
            r@ == self@,
    {
        self.inner.as_str()
    }
}

/// The parameters of a media type, as stored.
#[derive(Debug)]
pub enum ParamKind {
    /// `charset=utf-8`.
    Utf8,
    /// Name and value pairs.
    Vec(Vec<(ParamName, ParamValue)>),
}

impl ParamKind {
    /// The name and value pairs; the parameters must be a list.
    pub fn unwrap(&mut self) -> (r: &mut Vec<(ParamName, ParamValue)>)
        requires
            *old(self) is Vec,
        ensures
            *r == (*old(self))->Vec_0,
            *final(self) == ParamKind::Vec(*final(r)),
    {
        match self {
            ParamKind::Vec(v) => v,
            ParamKind::Utf8 => {
                assert(false);
                unreached()
            },
        }
    }
}

/// The pairs of a list of parameters, each taken by its view.
pub open spec fn pairs_view(v: Seq<(ParamName, ParamValue)>) -> Seq<(Seq<char>, Seq<char>)> {
    v.map_values(|p: (ParamName, ParamValue)| (p.0@, p.1@))
}

/// An IANA MIME media type.
#[derive(Debug)]
pub struct MediaType {
    essence: String,
    basetype: String,
    subtype: String,
    params: Option<ParamKind>,
}

impl View for MediaType {
    type V = MediaTypeView;

    closed spec fn view(&self) -> MediaTypeView {
        MediaTypeView {
            basetype: self.basetype@,
            subtype: self.subtype@,
            params: match self.params {
                None => ParamsView::NoParams,
                Some(ParamKind::Utf8) => ParamsView::Utf8,
                Some(ParamKind::Vec(v)) => ParamsView::List(pairs_view(v@)),
            },
        }
    }
}

/// A media type that can stand in a header: its type, subtype and every
/// parameter are tokens, the type is not empty, and a parameter list is
/// never empty.
pub open spec fn media_type_wf(m: MediaTypeView) -> bool {
    &&& all_token(m.basetype)
    &&& m.basetype.len() > 0
    &&& all_token(m.subtype)
    &&& match m.params {
        ParamsView::List(ps) => ps.len() > 0 && params_are_tokens(ps),
        _ => true,
    }
}

impl MediaType {
    #[verifier::type_invariant]
    spec fn inv(&self) -> bool {
        &&& self.essence@ == essence_of(self@)
        &&& media_type_wf(self@)
    }

    /// Builds a media type from its parts.
    pub(crate) fn from_parts(basetype: String, subtype: String, params: Option<ParamKind>) -> (r: Self)
        requires
            all_token(basetype@),
            basetype@.len() > 0,
            all_token(subtype@),
            match params {
                Some(ParamKind::Vec(v)) => v@.len() > 0 && params_are_tokens(pairs_view(v@)),
                _ => true,
            },
        ensures
            r@.basetype == basetype@,
            r@.subtype == subtype@,
            r@.params == match params {
                None => ParamsView::NoParams,
                Some(ParamKind::Utf8) => ParamsView::Utf8,
                Some(ParamKind::Vec(v)) => ParamsView::List(pairs_view(v@)),
            },
    {
        let mut essence = String::new();
        push_str(&mut essence, basetype.as_str());
        push_char(&mut essence, '/');
        push_str(&mut essence, subtype.as_str());
        assert(essence@ =~= basetype@ + seq!['/'] + subtype@);
        MediaType { essence, basetype, subtype, params }
    }

    /// Access the MediaType's `type` value.
    pub fn basetype(&self) -> (r: &str)
        ensures
            r@ == self@.basetype,
    {
        self.basetype.as_str()
    }

    /// Access the MediaType's `subtype` value.
    pub fn subtype(&self) -> (r: &str)
        ensures
            r@ == self@.subtype,
    {
        self.subtype.as_str()
    }

    /// Access the MediaType's `essence` value.
    pub fn essence(&self) -> (r: &str)
        ensures
            r@ == essence_of(self@),
    {
        proof {
            use_type_invariant(self);
        }
        self.essence.as_str()
    }

    /// Get a copy of a param; the name is compared ASCII-lowercased.
    pub fn param(&self, name: &str) -> (r: Option<ParamValue>)
        ensures
            match r {
                Some(v) => param_of(self@, name@) == Some(v@),
                None => param_of(self@, name@) is None,
            },
    {
        let cs = chars_of(name);
        assert(cs@.subrange(0, cs@.len() as int) =~= name@);
        let lower = crate::text::lowercase_string(cs.as_slice(), 0, cs.len());
        match &self.params {
            None => None,
            Some(ParamKind::Utf8) => {
                let lc = chars_of(lower.as_str());
                let charset = vec!['c', 'h', 'a', 'r', 's', 'e', 't'];
                if crate::text::eq_chars(&lc, &charset) {
                    assert(charset@ =~= seq!['c', 'h', 'a', 'r', 's', 'e', 't']);
                    Some(utf8_value())
                } else {
                    assert(charset@ =~= seq!['c', 'h', 'a', 'r', 's', 'e', 't']);
                    None
                }
            },
            Some(ParamKind::Vec(v)) => {
                let lc = chars_of(lower.as_str());
                let mut i = v.len();
                assert(v@.take(v@.len() as int) =~= v@);
                while i > 0
                    invariant
                        i <= v@.len(),
                        lc@ == lowercase(name@),
                        self@.params == ParamsView::List(pairs_view(v@)),
                        param_index(pairs_view(v@), lc@) == param_index(
                            pairs_view(v@.take(i as int)),
                            lc@,
                        ),
                    decreases i,
                {
                    let ghost before = pairs_view(v@.take(i as int));
                    assert(before.drop_last() =~= pairs_view(v@.take(i - 1)));
                    assert(before.last() == (v@[i - 1].0@, v@[i - 1].1@));
                    let kc = chars_of(v[i - 1].0.as_str());
                    if crate::text::eq_chars(&kc, &lc) {
                        assert(before.last().0 == lc@);
                        assert(param_index(before, lc@) == Some((i - 1) as nat));
                        assert(pairs_view(v@)[i - 1] == before.last());
                        let found = ParamValue { inner: v[i - 1].1.inner.clone() };
                        assert(found@ == v@[i - 1].1@);
                        assert(param_of(self@, name@) == Some(pairs_view(v@)[i - 1].1));
                        return Some(found);
                    }
                    i = i - 1;
                }
                assert(pairs_view(v@.take(0)) =~= Seq::<(Seq<char>, Seq<char>)>::empty());
                None
            },
        }
    }

    /// The media type as text: the essence, then its parameters.
    pub fn to_string(&self) -> (r: String)
        ensures
            r@ == media_type_text(self@),
    {
        proof {
            use_type_invariant(self);
        }
        let mut out = String::new();
        push_str(&mut out, self.essence.as_str());
        match &self.params {
            None => {},
            Some(ParamKind::Utf8) => {
                let tail = vec![';', ' ', 'c', 'h', 'a', 'r', 's', 'e', 't', '=', 'u', 't', 'f', '-', '8'];
                crate::text::push_chars(&mut out, tail.as_slice(), 0, tail.len());
                assert(tail@.subrange(0, 15) =~= seq![';', ' ', 'c', 'h', 'a', 'r', 's', 'e', 't', '=', 'u', 't', 'f', '-', '8']);
            },
            Some(ParamKind::Vec(v)) => {
                push_char(&mut out, ';');
                push_char(&mut out, ' ');
                let ghost start = out@;
                let ghost ps = pairs_view(v@);
                let mut i: usize = 0;
                while i < v.len()
                    invariant
                        i <= v@.len(),
                        ps == pairs_view(v@),
                        out@ == start + join_params(ps.take(i as int)),
                    decreases v@.len() - i,
                {
                    if i > 0 {
                        push_char(&mut out, ';');
                        push_char(&mut out, ' ');
                    }
                    push_str(&mut out, v[i].0.as_str());
                    push_char(&mut out, '=');
                    push_str(&mut out, v[i].1.as_str());
                    proof {
                        let nxt = ps.take(i + 1);
                        assert(nxt.drop_last() =~= ps.take(i as int));
                        assert(nxt.last() == ps[i as int]);
                        assert(ps[i as int] == (v@[i as int].0@, v@[i as int].1@));
                        if i == 0 {
                            assert(ps.take(0) =~= Seq::<(Seq<char>, Seq<char>)>::empty());
                            assert(nxt[0] == ps[0]);
                        }
                        assert(out@ =~= start + join_params(nxt));
                    }
                    i = i + 1;
                }
                assert(ps.take(ps.len() as int) =~= ps);
            },
        }
        assert(out@ =~= media_type_text(self@));
        out
    }

    /// The media type as a header value.
    pub fn value(&self) -> (r: HeaderValue)
        ensures
            r@ == media_type_text(self@),
    {
        proof {
            use_type_invariant(self);
            lemma_media_type_text_ascii(self@);
        }
        HeaderValue::from_ascii_string(self.to_string())
    }

    /// Parses a media type, following the WHATWG MIME type parsing
    /// algorithm; the text must not end in a parameter name with nothing
    /// after it (`checked_from_str` tells).
    pub fn from_str(s: &str) -> (r: Result<Self, Error>)
        requires
            !(parse_media_type(s@) is Unterminated),
        ensures
            match r {
                Ok(m) => parse_media_type(s@) == MediaTypeParse::Parsed(m@),
                Err(e) => parse_media_type(s@) == MediaTypeParse::Invalid(e),
            },
    {
        match parse::parse(s) {
            Some(r) => r,
            None => unreached(),
        }
    }

    /// Parses a media type as `from_str` does, for any text: `None` exactly
    /// when the text ends in a parameter name with nothing after it.
    pub fn checked_from_str(s: &str) -> (r: Option<Result<Self, Error>>)
        ensures
            match r {
                None => parse_media_type(s@) is Unterminated,
                Some(Ok(m)) => parse_media_type(s@) == MediaTypeParse::Parsed(m@),
                Some(Err(e)) => parse_media_type(s@) == MediaTypeParse::Invalid(e),
            },
    {
        parse::parse(s)
    }

    /// Sniff the media type from a byte slice, and parse what was found.
    /// The bytes must not be among those on which the sniffer's matchers
    /// fail (`sniff_traps`; `sniffable` tells).
    pub fn sniff(bytes: &[u8]) -> (r: Result<Self, Error>)
        requires
            !sniff_traps(bytes@),
        ensures
            match sniffed_mime(bytes@) {
                None => r matches Err(e) && e == Error::Status(500, "Could not sniff the media type"),
                Some(m) => match r {
                    Ok(t) => parse_media_type(m) == MediaTypeParse::Parsed(t@),
                    Err(e) => parse_media_type(m) == MediaTypeParse::Invalid(e),
                },
            },
    {
        match sniff_mime(bytes) {
            None => Err(Error::Status(500, "Could not sniff the media type")),
            Some(m) => {
                proof {
                    lemma_no_semicolon_terminated(m@);
                }
                Self::from_str(m.as_str())
            },
        }
    }

    /// Guess the media type from a file extension.
    pub fn from_extension(extension: &str) -> (r: Option<Self>)
        ensures
            match r {
                Some(m) => extension_media_type(extension@) == Some(m@),
                None => extension_media_type(extension@) is None,
            },
    {
        let cs = chars_of(extension);
        if crate::text::eq_chars(&cs, &vec!['h', 't', 'm', 'l']) {
            Some(html())
        } else if crate::text::eq_chars(&cs, &vec!['j', 's']) || crate::text::eq_chars(&cs, &vec!['m', 'j', 's']) || crate::text::eq_chars(
            &cs,
            &vec!['j', 's', 'o', 'n', 'p'],
        ) {
            Some(javascript())
        } else if crate::text::eq_chars(&cs, &vec!['j', 's', 'o', 'n']) {
            Some(json())
        } else if crate::text::eq_chars(&cs, &vec!['c', 's', 's']) {
            Some(css())
        } else if crate::text::eq_chars(&cs, &vec!['s', 'v', 'g']) {
            Some(svg())
        } else if crate::text::eq_chars(&cs, &vec!['x', 'm', 'l']) {
            Some(xml())
        } else {
            None
        }
    }
}

/// The MIME type that `infer` finds for some bytes, if any.
pub uninterp spec fn sniffed_mime(bytes: Seq<u8>) -> Option<Seq<char>>;

/// The number that four bytes from `i` on spell, most significant first.
pub open spec fn be_u32_at(b: Seq<u8>, i: int) -> int {
    b[i] * 16777216 + b[i + 1] * 65536 + b[i + 2] * 256 + b[i + 3]
}

/// The number that four bytes from `i` on spell, least significant first.
pub open spec fn le_u32_at(b: Seq<u8>, i: int) -> int {
    b[i] + b[i + 1] * 256 + b[i + 2] * 65536 + b[i + 3] * 16777216
}

/// An ISO base media header (`ftyp` at bytes 4 to 8) whose box length,
/// the first four bytes, fits the buffer but ends with a compatible brand
/// cut short: the brand walk of the HEIF and AVIF matchers reads four
/// bytes from each offset `16, 20, ..` below the box length, and one of
/// those reads runs past the end.
pub open spec fn isobmff_brand_overrun(b: Seq<u8>) -> bool {
    &&& b.len() >= 16
    &&& b[4] == 0x66u8 && b[5] == 0x74u8 && b[6] == 0x79u8 && b[7] == 0x70u8
    &&& be_u32_at(b, 0) <= b.len()
    &&& exists|i: int| 16 <= i < be_u32_at(b, 0) && i % 4 == 0 && #[trigger] (i + 4) > b.len()
}

/// Whether the bytes `p` stand in `b` from `off` on.
pub open spec fn bytes_at(b: Seq<u8>, off: int, p: Seq<u8>) -> bool {
    &&& off + p.len() <= b.len()
    &&& b.subrange(off, off + p.len()) == p
}

/// `word/`, `ppt/` and `xl/`: the folders of Word, PowerPoint and Excel
/// documents.
pub open spec fn office_folder_at(b: Seq<u8>, off: int) -> bool {
    ||| bytes_at(b, off, seq![0x77u8, 0x6fu8, 0x72u8, 0x64u8, 0x2fu8])
    ||| bytes_at(b, off, seq![0x70u8, 0x70u8, 0x74u8, 0x2fu8])
    ||| bytes_at(b, off, seq![0x78u8, 0x6cu8, 0x2fu8])
}

/// `[Content_Types].xml` or `_rels/.rels`: the file names that mark an
/// office document.
pub open spec fn office_marker_at(b: Seq<u8>, off: int) -> bool {
    ||| bytes_at(
        b,
        off,
        seq![
            0x5bu8, 0x43u8, 0x6fu8, 0x6eu8, 0x74u8, 0x65u8, 0x6eu8, 0x74u8, 0x5fu8, 0x54u8,
            0x79u8, 0x70u8, 0x65u8, 0x73u8, 0x5du8, 0x2eu8, 0x78u8, 0x6du8, 0x6cu8,
        ],
    )
    ||| bytes_at(
        b,
        off,
        seq![0x5fu8, 0x72u8, 0x65u8, 0x6cu8, 0x73u8, 0x2fu8, 0x2eu8, 0x72u8, 0x65u8, 0x6cu8, 0x73u8],
    )
}

/// A ZIP local file header (`PK\x03\x04`) that the office document
/// matcher follows to the field at bytes 18 to 22 (no office folder at byte
/// 30, but one of the marker file names there), with a field so large that
/// the matcher's offset overflows: the field plus 49 as a `u32`, or that
/// plus the 6000 bytes the matcher searches as a `usize`.
pub open spec fn ooxml_offset_overflow(b: Seq<u8>) -> bool {
    &&& bytes_at(b, 0, seq![0x50u8, 0x4bu8, 0x03u8, 0x04u8])
    &&& !office_folder_at(b, 30)
    &&& office_marker_at(b, 30)
    &&& (le_u32_at(b, 18) + 49 > u32::MAX || le_u32_at(b, 18) + 6049 > usize::MAX)
}

/// A TIFF header (`II*\0` or `MM\0*`) with `CR` at bytes 8 and 9 and
/// nothing after them: the CR2 matcher then reads byte 10.
pub open spec fn cr2_short_read(b: Seq<u8>) -> bool {
    &&& b.len() == 10
    &&& (b[0] == 0x49u8 && b[1] == 0x49u8 && b[2] == 0x2au8 && b[3] == 0x00u8) || (b[0] == 0x4du8
        && b[1] == 0x4du8 && b[2] == 0x00u8 && b[3] == 0x2au8)
    &&& b[8] == 0x43u8 && b[9] == 0x52u8
}

/// The bytes on which one of `infer`'s built-in matchers panics, or may:
/// they are left out of sniffing.
pub open spec fn sniff_traps(b: Seq<u8>) -> bool {
    isobmff_brand_overrun(b) || ooxml_offset_overflow(b) || cr2_short_read(b)
}

/// Whether `p` stands in `b` from `off` on.
fn has_bytes_at(b: &[u8], off: usize, p: &[u8]) -> (r: bool)
    ensures
        r == bytes_at(b@, off as int, p@),
{
    if off > b.len() || p.len() > b.len() - off {
        return false;
    }
    let mut i: usize = 0;
    while i < p.len()
        invariant
            off + p@.len() <= b@.len(),
            b@.len() == b.len(),
            i <= p@.len(),
            forall|j: int| 0 <= j < i ==> b@[off + j] == p@[j],
        decreases p@.len() - i,
    {
        if b[off + i] != p[i] {
            assert(b@.subrange(off as int, off + p@.len())[i as int] == b@[off + i]);
            return false;
        }
        i = i + 1;
    }
    assert(b@.subrange(off as int, off + p@.len()) =~= p@);
    true
}

/// Whether the bytes can be sniffed: they are not among `sniff_traps`.
pub fn sniffable(bytes: &[u8]) -> (r: bool)
    ensures
        r == !sniff_traps(bytes@),
{
    let n = bytes.len();
    let mut overrun = false;
    if n >= 16 && bytes[4] == 0x66u8 && bytes[5] == 0x74u8 && bytes[6] == 0x79u8 && bytes[7] == 0x70u8 {
        let l: u64 = (bytes[0] as u64) * 16777216 + (bytes[1] as u64) * 65536 + (bytes[2] as u64) * 256
            + (bytes[3] as u64);
        let m: usize = n - n % 4;
        overrun = l <= n as u64 && n % 4 != 0 && m >= 16 && (m as u64) < l;
        proof {
            let b = bytes@;
            assert(l == be_u32_at(b, 0));
            if overrun {
                assert(16 <= m < be_u32_at(b, 0) && m % 4 == 0 && m + 4 > b.len());
            } else if be_u32_at(b, 0) <= b.len() {
                assert forall|i: int| 16 <= i < be_u32_at(b, 0) && i % 4 == 0 implies !(#[trigger] (i + 4) > b.len()) by {
                    if i + 4 > b.len() {
                        assert(i == m);
                    }
                }
            }
        }
    }
    let zip = vec![0x50u8, 0x4bu8, 0x03u8, 0x04u8];
    let word = vec![0x77u8, 0x6fu8, 0x72u8, 0x64u8, 0x2fu8];
    let ppt = vec![0x70u8, 0x70u8, 0x74u8, 0x2fu8];
    let xl = vec![0x78u8, 0x6cu8, 0x2fu8];
    let types = vec![
        0x5bu8, 0x43u8, 0x6fu8, 0x6eu8, 0x74u8, 0x65u8, 0x6eu8, 0x74u8, 0x5fu8, 0x54u8, 0x79u8,
        0x70u8, 0x65u8, 0x73u8, 0x5du8, 0x2eu8, 0x78u8, 0x6du8, 0x6cu8,
    ];
    let rels = vec![0x5fu8, 0x72u8, 0x65u8, 0x6cu8, 0x73u8, 0x2fu8, 0x2eu8, 0x72u8, 0x65u8, 0x6cu8, 0x73u8];
    let followed = has_bytes_at(bytes, 0, zip.as_slice()) && !(has_bytes_at(bytes, 30, word.as_slice())
        || has_bytes_at(bytes, 30, ppt.as_slice()) || has_bytes_at(bytes, 30, xl.as_slice())) && (
    has_bytes_at(bytes, 30, types.as_slice()) || has_bytes_at(bytes, 30, rels.as_slice()));
    let mut overflow = false;
    if followed {
        proof {
            assert(bytes@.len() >= 41);
        }
        let f: u64 = (bytes[18] as u64) + (bytes[19] as u64) * 256 + (bytes[20] as u64) * 65536
            + (bytes[21] as u64) * 16777216;
        overflow = f + 49 > 0xffff_ffffu64 || f + 6049 > usize::MAX as u64;
    }
    let short_cr2 = n == 10 && ((bytes[0] == 0x49u8 && bytes[1] == 0x49u8 && bytes[2] == 0x2au8
        && bytes[3] == 0x00u8) || (bytes[0] == 0x4du8 && bytes[1] == 0x4du8 && bytes[2] == 0x00u8
        && bytes[3] == 0x2au8)) && bytes[8] == 0x43u8 && bytes[9] == 0x52u8;
    !(overrun || overflow || short_cr2)
}

/// Calls `infer::Infer::get` on a fresh `Infer`, which holds only the
/// crate's built-in matchers, and keeps the `mime` of the type found. The
/// result depends on the bytes alone; every MIME string of those matchers is
/// free of `;`. The bytes on which a matcher panics are left out.
#[verifier::external_body]
fn sniff_mime(bytes: &[u8]) -> (r: Option<String>)
    requires
        !sniff_traps(bytes@),
    ensures
        match r {
            Some(m) => sniffed_mime(bytes@) == Some(m@) && find(m@, ';') is None,
            None => sniffed_mime(bytes@) is None,
        },
{
    infer::Infer::new().get(bytes).map(|t| t.mime)
}

/// Text without `;` never ends in an unterminated parameter.
pub proof fn lemma_no_semicolon_terminated(s: Seq<char>)
    requires
        find(s, ';') is None,
    ensures
        !(parse_media_type(s) is Unterminated),
{
    lemma_find_some(s, ';');
    lemma_find_some(s, '/');
    if let Some(i) = find(s, '/') {
        let rest = s.skip(i + 1 as int);
        assert forall|j: int| 0 <= j < rest.len() implies rest[j] != ';' by {
            assert(rest[j] == s[i + 1 + j]);
        }
        lemma_find_none(rest, ';');
    }
}


/// The media type a file extension names.
pub open spec fn extension_media_type(e: Seq<char>) -> Option<MediaTypeView> {
    if e == seq!['h', 't', 'm', 'l'] {
        Some(constants::utf8_view(seq!['t', 'e', 'x', 't'], seq!['h', 't', 'm', 'l']))
    } else if e == seq!['j', 's'] || e == seq!['m', 'j', 's'] || e == seq!['j', 's', 'o', 'n', 'p'] {
        Some(
            constants::utf8_view(
                seq!['a', 'p', 'p', 'l', 'i', 'c', 'a', 't', 'i', 'o', 'n'],
                seq!['j', 'a', 'v', 'a', 's', 'c', 'r', 'i', 'p', 't'],
            ),
        )
    } else if e == seq!['j', 's', 'o', 'n'] {
        Some(
            constants::plain_view(
                seq!['a', 'p', 'p', 'l', 'i', 'c', 'a', 't', 'i', 'o', 'n'],
                seq!['j', 's', 'o', 'n'],
            ),
        )
    } else if e == seq!['c', 's', 's'] {
        Some(constants::utf8_view(seq!['t', 'e', 'x', 't'], seq!['c', 's', 's']))
    } else if e == seq!['s', 'v', 'g'] {
        Some(constants::plain_view(seq!['i', 'm', 'a', 'g', 'e'], seq!['s', 'v', 'g', '+', 'x', 'm', 'l']))
    } else if e == seq!['x', 'm', 'l'] {
        Some(
            constants::utf8_view(
                seq!['a', 'p', 'p', 'l', 'i', 'c', 'a', 't', 'i', 'o', 'n'],
                seq!['x', 'm', 'l'],
            ),
        )
    } else {
        None
    }
}

/// Law: the file extensions that name a media type are `html` (HTML),
/// `js`, `mjs` and `jsonp` (JavaScript), `json` (JSON), `css` (CSS), `svg`
/// (SVG) and `xml` (XML); the text types and JavaScript and XML carry
/// `charset=utf-8`, JSON and SVG no parameter. No other extension names one.
pub proof fn law_extension_media_types(e: Seq<char>)
    ensures
        extension_media_type(seq!['h', 't', 'm', 'l']) == Some(MediaTypeView { basetype: seq!['t', 'e', 'x', 't'], subtype: seq!['h', 't', 'm', 'l'], params: ParamsView::Utf8 }),
        extension_media_type(seq!['j', 's']) == Some(MediaTypeView { basetype: seq!['a', 'p', 'p', 'l', 'i', 'c', 'a', 't', 'i', 'o', 'n'], subtype: seq!['j', 'a', 'v', 'a', 's', 'c', 'r', 'i', 'p', 't'], params: ParamsView::Utf8 }),
        extension_media_type(seq!['m', 'j', 's']) == Some(MediaTypeView { basetype: seq!['a', 'p', 'p', 'l', 'i', 'c', 'a', 't', 'i', 'o', 'n'], subtype: seq!['j', 'a', 'v', 'a', 's', 'c', 'r', 'i', 'p', 't'], params: ParamsView::Utf8 }),
        extension_media_type(seq!['j', 's', 'o', 'n', 'p']) == Some(MediaTypeView { basetype: seq!['a', 'p', 'p', 'l', 'i', 'c', 'a', 't', 'i', 'o', 'n'], subtype: seq!['j', 'a', 'v', 'a', 's', 'c', 'r', 'i', 'p', 't'], params: ParamsView::Utf8 }),
        extension_media_type(seq!['j', 's', 'o', 'n']) == Some(MediaTypeView { basetype: seq!['a', 'p', 'p', 'l', 'i', 'c', 'a', 't', 'i', 'o', 'n'], subtype: seq!['j', 's', 'o', 'n'], params: ParamsView::NoParams }),
        extension_media_type(seq!['c', 's', 's']) == Some(MediaTypeView { basetype: seq!['t', 'e', 'x', 't'], subtype: seq!['c', 's', 's'], params: ParamsView::Utf8 }),
        extension_media_type(seq!['s', 'v', 'g']) == Some(MediaTypeView { basetype: seq!['i', 'm', 'a', 'g', 'e'], subtype: seq!['s', 'v', 'g', '+', 'x', 'm', 'l'], params: ParamsView::NoParams }),
        extension_media_type(seq!['x', 'm', 'l']) == Some(MediaTypeView { basetype: seq!['a', 'p', 'p', 'l', 'i', 'c', 'a', 't', 'i', 'o', 'n'], subtype: seq!['x', 'm', 'l'], params: ParamsView::Utf8 }),
        extension_media_type(e) is Some <==> (e == seq!['h', 't', 'm', 'l'] || e == seq!['j', 's'] || e == seq!['m', 'j', 's'] || e == seq!['j', 's', 'o', 'n', 'p'] || e == seq!['j', 's', 'o', 'n'] || e == seq!['c', 's', 's'] || e == seq!['s', 'v', 'g'] || e == seq!['x', 'm', 'l']),
{
    assert(seq!['j', 's', 'o', 'n'] != seq!['h', 't', 'm', 'l']) by {
        assert(seq!['j', 's', 'o', 'n'][0] != seq!['h', 't', 'm', 'l'][0]);
    }
    let json = seq!['j', 's', 'o', 'n'];
    assert(json.len() != seq!['j', 's'].len());
    assert(json.len() != seq!['m', 'j', 's'].len());
    assert(json.len() != seq!['j', 's', 'o', 'n', 'p'].len());
    assert(json != seq!['j', 's'] && json != seq!['m', 'j', 's'] && json != seq!['j', 's', 'o', 'n', 'p']);
}

/// Law: a UTF-8 media type is written with the parameter `charset=utf-8`
/// after `; `, and asking it for `charset`, in any case, gives `utf-8`; it
/// has no other parameter.
pub proof fn law_utf8_charset(b: Seq<char>, st: Seq<char>, n: Seq<char>)
    ensures
        media_type_text(MediaTypeView { basetype: b, subtype: st, params: ParamsView::Utf8 }) == b
            + seq!['/'] + st + seq![';', ' ', 'c', 'h', 'a', 'r', 's', 'e', 't', '=', 'u', 't', 'f', '-', '8'],
        param_of(MediaTypeView { basetype: b, subtype: st, params: ParamsView::Utf8 }, n) == if lowercase(n)
            == seq!['c', 'h', 'a', 'r', 's', 'e', 't'] {
            Some(seq!['u', 't', 'f', '-', '8'])
        } else {
            None
        },
{
}

/// The value `utf-8` that a UTF-8 media type gives for `charset`.
fn utf8_value() -> (r: ParamValue)
    ensures
        r@ == seq!['u', 't', 'f', '-', '8'],
{
    let v = vec!['u', 't', 'f', '-', '8'];
    let s = string_from_chars(v.as_slice(), 0, 5);
    assert(v@.subrange(0, 5) =~= seq!['u', 't', 'f', '-', '8']);
    ParamValue { inner: s }
}

/// Name and value pairs of tokens joined as `join_params` writes them are
/// ASCII.
pub proof fn lemma_join_params_ascii(ps: Seq<(Seq<char>, Seq<char>)>)
    requires
        params_are_tokens(ps),
    ensures
        all_ascii(join_params(ps)),
    decreases ps.len(),
{
    if ps.len() > 0 {
        let n = ps.last().0;
        let v = ps.last().1;
        assert(all_token(ps[ps.len() - 1].0) && all_token(ps[ps.len() - 1].1));
        lemma_token_ascii(n);
        lemma_token_ascii(v);
        if ps.len() == 1 {
            let j = n + seq!['='] + v;
            assert(ps[0] == ps.last());
            assert forall|i: int| 0 <= i < j.len() implies (#[trigger] j[i] as u32) < 128 by {
                if i < n.len() {
                    assert(j[i] == n[i]);
                } else if i > n.len() {
                    assert(j[i] == v[i - n.len() - 1]);
                }
            }
        } else {
            assert(params_are_tokens(ps.drop_last())) by {
                assert forall|i: int| 0 <= i < ps.drop_last().len() implies all_token(
                    #[trigger] ps.drop_last()[i].0,
                ) && all_token(ps.drop_last()[i].1) by {
                    assert(ps.drop_last()[i] == ps[i]);
                }
            }
            lemma_join_params_ascii(ps.drop_last());
            let a = join_params(ps.drop_last());
            let j = a + seq![';', ' '] + n + seq!['='] + v;
            assert forall|i: int| 0 <= i < j.len() implies (#[trigger] j[i] as u32) < 128 by {
                if i < a.len() {
                    assert(j[i] == a[i]);
                } else if a.len() + 1 < i < a.len() + 2 + n.len() {
                    assert(j[i] == n[i - a.len() - 2]);
                } else if i > a.len() + 2 + n.len() {
                    assert(j[i] == v[i - a.len() - 3 - n.len()]);
                }
            }
        }
    }
}

/// The text of a well-formed media type is ASCII.
pub proof fn lemma_media_type_text_ascii(m: MediaTypeView)
    requires
        media_type_wf(m),
    ensures
        all_ascii(media_type_text(m)),
{
    lemma_token_ascii(m.basetype);
    lemma_token_ascii(m.subtype);
    let e = essence_of(m);
    let tail = match m.params {
        ParamsView::NoParams => seq![],
        ParamsView::Utf8 => seq![';', ' ', 'c', 'h', 'a', 'r', 's', 'e', 't', '=', 'u', 't', 'f', '-', '8'],
        ParamsView::List(ps) => seq![';', ' '] + join_params(ps),
    };
    if let ParamsView::List(ps) = m.params {
        lemma_join_params_ascii(ps);
        let j = join_params(ps);
        assert forall|i: int| 0 <= i < tail.len() implies (#[trigger] tail[i] as u32) < 128 by {
            if i >= 2 {
                assert(tail[i] == j[i - 2]);
            }
        }
    }
    let t = e + tail;
    assert(t == media_type_text(m));
    assert forall|i: int| 0 <= i < t.len() implies (#[trigger] t[i] as u32) < 128 by {
        if i < m.basetype.len() {
            assert(t[i] == m.basetype[i]);
        } else if m.basetype.len() < i < e.len() {
            assert(t[i] == m.subtype[i - m.basetype.len() - 1]);
        } else if i >= e.len() {
            assert(t[i] == tail[i - e.len()]);
        }
    }
}

impl Clone for MediaType {
    fn clone(&self) -> (r: Self)
        ensures
            r@ == self@,
    {
        proof {
            use_type_invariant(self);
        }
        let params = match &self.params {
            None => None,
            Some(ParamKind::Utf8) => Some(ParamKind::Utf8),
            Some(ParamKind::Vec(v)) => Some(ParamKind::Vec(clone_pairs(v))),
        };
        MediaType::from_parts(self.basetype.clone(), self.subtype.clone(), params)
    }
}

/// A copy of a list of parameters.
fn clone_pairs(v: &Vec<(ParamName, ParamValue)>) -> (r: Vec<(ParamName, ParamValue)>)
    ensures
        pairs_view(r@) == pairs_view(v@),
{
    let mut r: Vec<(ParamName, ParamValue)> = Vec::new();
    let mut i: usize = 0;
    while i < v.len()
        invariant
            i <= v@.len(),
            pairs_view(r@) == pairs_view(v@.take(i as int)),
        decreases v@.len() - i,
    {
        let n = ParamName { inner: v[i].0.inner.clone() };
        let x = ParamValue { inner: v[i].1.inner.clone() };
        let ghost old_r = r@;
        r.push((n, x));
        proof {
            assert(pairs_view(r@) =~= pairs_view(old_r).push((v@[i as int].0@, v@[i as int].1@)));
            assert(pairs_view(v@.take(i + 1)) =~= pairs_view(v@.take(i as int)).push(
                (v@[i as int].0@, v@[i as int].1@),
            ));
        }
        i = i + 1;
    }
    assert(v@.take(v@.len() as int) =~= v@);
    r
}

impl PartialEq for MediaType {
    fn eq(&self, other: &Self) -> (r: bool) {
        let a = chars_of(self.essence());
        let b = chars_of(other.essence());
        crate::text::eq_chars(&a, &b)
    }
}

impl PartialEqSpecImpl for MediaType {
    open spec fn obeys_eq_spec() -> bool {
        true
    }

    open spec fn eq_spec(&self, other: &MediaType) -> bool {
        essence_of(self@) == essence_of(other@)
    }
}

impl ToHeaderValues for MediaType {
    open spec fn header_values_spec(&self) -> Option<Seq<Seq<char>>> {
        Some(seq![media_type_text(self@)])
    }

    fn to_header_values(&self) -> (r: Result<HeaderValues, Error>) {
        Ok(HeaderValues::new(self.value()))
    }
}

} // verus!
