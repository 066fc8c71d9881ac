//! The decisions of multipart/form-data bodies: the boundary that a
//! request's content type names, and the media type of each part.

use vstd::prelude::*;

use crate::errors::Error;
use crate::media_type::{
    param_of, parse_media_type, plain, utf8_view, MediaType, MediaTypeParse,
};

verus! {

/// The error of a content type without a `boundary` parameter.
pub open spec fn boundary_error() -> Error {
    Error::Status(400, "Invalid `Content-Type` header. Expected a `boundary` param")
}

/// The boundary of a multipart body: the `boundary` parameter of its content
/// type.
pub fn boundary(content_type: Option<&MediaType>) -> (r: Result<String, Error>)
    ensures
        match content_type {
            Some(m) => match param_of(m@, seq!['b', 'o', 'u', 'n', 'd', 'a', 'r', 'y']) {
                Some(b) => r matches Ok(s) && s@ == b,
                None => r matches Err(e) && e == boundary_error(),
            },
            None => r matches Err(e) && e == boundary_error(),
        },
{
    match content_type {
        Some(m) => {
            proof {
                reveal_strlit("boundary");
            }
            assert("boundary"@ =~= seq!['b', 'o', 'u', 'n', 'd', 'a', 'r', 'y']);
            match m.param("boundary") {
                Some(v) => Ok(v.as_str().to_owned()),
                None => Err(
                    Error::Status(400, "Invalid `Content-Type` header. Expected a `boundary` param"),
                ),
            }
        },
        None => Err(
            Error::Status(400, "Invalid `Content-Type` header. Expected a `boundary` param"),
        ),
    }
}

/// The media type of a part: the one its `Content-Type` names, which
/// defaults to `text/plain`. The named type must not end in a parameter
/// name with nothing after it (`MediaType::checked_from_str` tells).
pub fn entry_media_type(content_type: Option<&str>) -> (r: Result<MediaType, Error>)
    requires
        content_type matches Some(ct) ==> !(parse_media_type(ct@) is Unterminated),
    ensures
        match content_type {
            Some(ct) => match r {
                Ok(m) => parse_media_type(ct@) == MediaTypeParse::Parsed(m@),
                Err(e) => parse_media_type(ct@) == MediaTypeParse::Invalid(e),
            },
            None => r matches Ok(m) && m@ == utf8_view(
                seq!['t', 'e', 'x', 't'],
                seq!['p', 'l', 'a', 'i', 'n'],
            ),
        },
{
    match content_type {
        Some(ct) => MediaType::from_str(ct),
        None => Ok(plain()),
    }
}

} // verus!
