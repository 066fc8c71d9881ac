//! The media types that come with the library.

use vstd::prelude::*;

use crate::media_type::{all_token, MediaType, MediaTypeView, ParamKind, ParamsView};
use crate::text::string_from_chars;

verus! {

/// A media type with the parameter `charset=utf-8`.
pub open spec fn utf8_view(basetype: Seq<char>, subtype: Seq<char>) -> MediaTypeView {
    MediaTypeView { basetype, subtype, params: ParamsView::Utf8 }
}

/// A media type without parameters.
pub open spec fn plain_view(basetype: Seq<char>, subtype: Seq<char>) -> MediaTypeView {
    MediaTypeView { basetype, subtype, params: ParamsView::NoParams }
}

/// Builds a media type from the characters of its type and subtype.
fn make(basetype: Vec<char>, subtype: Vec<char>, utf8: bool) -> (r: MediaType)
    requires
        all_token(basetype@),
        basetype@.len() > 0,
        all_token(subtype@),
    ensures
        r@ == if utf8 {
            utf8_view(basetype@, subtype@)
        } else {
            plain_view(basetype@, subtype@)
        },
{
    let b = string_from_chars(basetype.as_slice(), 0, basetype.len());
    let s = string_from_chars(subtype.as_slice(), 0, subtype.len());
    assert(basetype@.subrange(0, basetype@.len() as int) =~= basetype@);
    assert(subtype@.subrange(0, subtype@.len() as int) =~= subtype@);
    let params = if utf8 {
        Some(ParamKind::Utf8)
    } else {
        None
    };
    MediaType::from_parts(b, s, params)
}

/// Content-Type for JavaScript: `application/javascript;charset=utf-8`.
pub fn javascript() -> (r: MediaType)
    ensures
        r@ == utf8_view(
            seq!['a', 'p', 'p', 'l', 'i', 'c', 'a', 't', 'i', 'o', 'n'],
            seq!['j', 'a', 'v', 'a', 's', 'c', 'r', 'i', 'p', 't'],
        ),
{
    make(vec!['a', 'p', 'p', 'l', 'i', 'c', 'a', 't', 'i', 'o', 'n'], vec!['j', 'a', 'v', 'a', 's', 'c', 'r', 'i', 'p', 't'], true)
}

/// Content-Type for CSS: `text/css;charset=utf-8`.
pub fn css() -> (r: MediaType)
    ensures
        r@ == utf8_view(seq!['t', 'e', 'x', 't'], seq!['c', 's', 's']),
{
    make(vec!['t', 'e', 'x', 't'], vec!['c', 's', 's'], true)
}

/// Content-Type for HTML: `text/html;charset=utf-8`.
pub fn html() -> (r: MediaType)
    ensures
        r@ == utf8_view(seq!['t', 'e', 'x', 't'], seq!['h', 't', 'm', 'l']),
{
    make(vec!['t', 'e', 'x', 't'], vec!['h', 't', 'm', 'l'], true)
}

/// Content-Type for plain text: `text/plain;charset=utf-8`.
pub fn plain() -> (r: MediaType)
    ensures
        r@ == utf8_view(seq!['t', 'e', 'x', 't'], seq!['p', 'l', 'a', 'i', 'n']),
{
    make(vec!['t', 'e', 'x', 't'], vec!['p', 'l', 'a', 'i', 'n'], true)
}

/// Content-Type for XML: `application/xml;charset=utf-8`.
pub fn xml() -> (r: MediaType)
    ensures
        r@ == utf8_view(
            seq!['a', 'p', 'p', 'l', 'i', 'c', 'a', 't', 'i', 'o', 'n'],
            seq!['x', 'm', 'l'],
        ),
{
    make(vec!['a', 'p', 'p', 'l', 'i', 'c', 'a', 't', 'i', 'o', 'n'], vec!['x', 'm', 'l'], true)
}

/// Content-Type matching anything: `*/*`.
pub fn any() -> (r: MediaType)
    ensures
        r@ == plain_view(seq!['*'], seq!['*']),
{
    let b = vec!['*'];
    let s = vec!['*'];
    assert(b@ =~= seq!['*']);
    assert(s@ =~= seq!['*']);
    make(b, s, false)
}

/// Content-Type for JSON: `application/json`.
pub fn json() -> (r: MediaType)
    ensures
        r@ == plain_view(
            seq!['a', 'p', 'p', 'l', 'i', 'c', 'a', 't', 'i', 'o', 'n'],
            seq!['j', 's', 'o', 'n'],
        ),
{
    make(vec!['a', 'p', 'p', 'l', 'i', 'c', 'a', 't', 'i', 'o', 'n'], vec!['j', 's', 'o', 'n'], false)
}

/// Content-Type for SVG: `image/svg+xml`.
pub fn svg() -> (r: MediaType)
    ensures
        r@ == plain_view(seq!['i', 'm', 'a', 'g', 'e'], seq!['s', 'v', 'g', '+', 'x', 'm', 'l']),
{
    make(vec!['i', 'm', 'a', 'g', 'e'], vec!['s', 'v', 'g', '+', 'x', 'm', 'l'], false)
}

/// Content-Type for PNG images: `image/png`.
pub fn png() -> (r: MediaType)
    ensures
        r@ == plain_view(seq!['i', 'm', 'a', 'g', 'e'], seq!['p', 'n', 'g']),
{
    make(vec!['i', 'm', 'a', 'g', 'e'], vec!['p', 'n', 'g'], false)
}

/// Content-Type for JPEG images: `image/jpeg`.
pub fn jpeg() -> (r: MediaType)
    ensures
        r@ == plain_view(seq!['i', 'm', 'a', 'g', 'e'], seq!['j', 'p', 'e', 'g']),
{
    make(vec!['i', 'm', 'a', 'g', 'e'], vec!['j', 'p', 'e', 'g'], false)
}

/// Content-Type for Server Sent Events: `text/event-stream`.
pub fn sse() -> (r: MediaType)
    ensures
        r@ == plain_view(
            seq!['t', 'e', 'x', 't'],
            seq!['e', 'v', 'e', 'n', 't', '-', 's', 't', 'r', 'e', 'a', 'm'],
        ),
{
    make(vec!['t', 'e', 'x', 't'], vec!['e', 'v', 'e', 'n', 't', '-', 's', 't', 'r', 'e', 'a', 'm'], false)
}

/// Content-Type for byte streams: `application/octet-stream`.
pub fn byte_stream() -> (r: MediaType)
    ensures
        r@ == plain_view(
            seq!['a', 'p', 'p', 'l', 'i', 'c', 'a', 't', 'i', 'o', 'n'],
            seq!['o', 'c', 't', 'e', 't', '-', 's', 't', 'r', 'e', 'a', 'm'],
        ),
{
    make(vec!['a', 'p', 'p', 'l', 'i', 'c', 'a', 't', 'i', 'o', 'n'], vec!['o', 'c', 't', 'e', 't', '-', 's', 't', 'r', 'e', 'a', 'm'], false)
}

/// Content-Type for forms: `application/x-www-form-urlencoded`.
pub fn form() -> (r: MediaType)
    ensures
        r@ == plain_view(
            seq!['a', 'p', 'p', 'l', 'i', 'c', 'a', 't', 'i', 'o', 'n'],
            seq!['x', '-', 'w', 'w', 'w', '-', 'f', 'o', 'r', 'm', '-', 'u', 'r', 'l', 'e', 'n', 'c', 'o', 'd', 'e', 'd'],
        ),
{
    make(vec!['a', 'p', 'p', 'l', 'i', 'c', 'a', 't', 'i', 'o', 'n'], vec!['x', '-', 'w', 'w', 'w', '-', 'f', 'o', 'r', 'm', '-', 'u', 'r', 'l', 'e', 'n', 'c', 'o', 'd', 'e', 'd'], false)
}

/// Content-Type for multipart forms: `multipart/form-data`.
pub fn multipart_form() -> (r: MediaType)
    ensures
        r@ == plain_view(
            seq!['m', 'u', 'l', 't', 'i', 'p', 'a', 'r', 't'],
            seq!['f', 'o', 'r', 'm', '-', 'd', 'a', 't', 'a'],
        ),
{
    make(vec!['m', 'u', 'l', 't', 'i', 'p', 'a', 'r', 't'], vec!['f', 'o', 'r', 'm', '-', 'd', 'a', 't', 'a'], false)
}

/// Content-Type for webassembly: `application/wasm`.
pub fn wasm() -> (r: MediaType)
    ensures
        r@ == plain_view(
            seq!['a', 'p', 'p', 'l', 'i', 'c', 'a', 't', 'i', 'o', 'n'],
            seq!['w', 'a', 's', 'm'],
        ),
{
    make(vec!['a', 'p', 'p', 'l', 'i', 'c', 'a', 't', 'i', 'o', 'n'], vec!['w', 'a', 's', 'm'], false)
}

/// Content-Type for ICO icons: `image/x-icon`.
pub fn ico() -> (r: MediaType)
    ensures
        r@ == plain_view(seq!['i', 'm', 'a', 'g', 'e'], seq!['x', '-', 'i', 'c', 'o', 'n']),
{
    make(vec!['i', 'm', 'a', 'g', 'e'], vec!['x', '-', 'i', 'c', 'o', 'n'], false)
}

} // verus!
