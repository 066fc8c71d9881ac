//! Names of the headers this library knows.

use vstd::prelude::*;

use crate::headers::HeaderName;

verus! {

/// The `Authorization` header.
pub fn authorization() -> (r: HeaderName)
    ensures
        r@ == "authorization"@,
{
    proof {
        reveal_strlit("authorization");
    }
    HeaderName::from_lowercase_str("authorization")
}

/// The `Clear-Site-Data` header.
pub fn clear_site_data() -> (r: HeaderName)
    ensures
        r@ == "clear-site-data"@,
{
    proof {
        reveal_strlit("clear-site-data");
    }
    HeaderName::from_lowercase_str("clear-site-data")
}

/// The `Content-Encoding` header.
pub fn content_encoding() -> (r: HeaderName)
    ensures
        r@ == "content-encoding"@,
{
    proof {
        reveal_strlit("content-encoding");
    }
    HeaderName::from_lowercase_str("content-encoding")
}

/// The `Content-Length` header.
pub fn content_length() -> (r: HeaderName)
    ensures
        r@ == "content-length"@,
{
    proof {
        reveal_strlit("content-length");
    }
    HeaderName::from_lowercase_str("content-length")
}

/// The `Content-Location` header.
pub fn content_location() -> (r: HeaderName)
    ensures
        r@ == "content-location"@,
{
    proof {
        reveal_strlit("content-location");
    }
    HeaderName::from_lowercase_str("content-location")
}

/// The `Content-Type` header.
pub fn content_type() -> (r: HeaderName)
    ensures
        r@ == "content-type"@,
{
    proof {
        reveal_strlit("content-type");
    }
    HeaderName::from_lowercase_str("content-type")
}

/// The `ETag` header.
pub fn etag() -> (r: HeaderName)
    ensures
        r@ == "etag"@,
{
    proof {
        reveal_strlit("etag");
    }
    HeaderName::from_lowercase_str("etag")
}

/// The `If-Match` header.
pub fn if_match() -> (r: HeaderName)
    ensures
        r@ == "if-match"@,
{
    proof {
        reveal_strlit("if-match");
    }
    HeaderName::from_lowercase_str("if-match")
}

/// The `If-Modified-Since` header.
pub fn if_modified_since() -> (r: HeaderName)
    ensures
        r@ == "if-modified-since"@,
{
    proof {
        reveal_strlit("if-modified-since");
    }
    HeaderName::from_lowercase_str("if-modified-since")
}

/// The `If-Range` header.
pub fn if_range() -> (r: HeaderName)
    ensures
        r@ == "if-range"@,
{
    proof {
        reveal_strlit("if-range");
    }
    HeaderName::from_lowercase_str("if-range")
}

/// The `Last-Modified` header.
pub fn last_modified() -> (r: HeaderName)
    ensures
        r@ == "last-modified"@,
{
    proof {
        reveal_strlit("last-modified");
    }
    HeaderName::from_lowercase_str("last-modified")
}

/// The `Save-Data` header.
pub fn save_data() -> (r: HeaderName)
    ensures
        r@ == "save-data"@,
{
    proof {
        reveal_strlit("save-data");
    }
    HeaderName::from_lowercase_str("save-data")
}

/// The `Vary` header.
pub fn vary() -> (r: HeaderName)
    ensures
        r@ == "vary"@,
{
    proof {
        reveal_strlit("vary");
    }
    HeaderName::from_lowercase_str("vary")
}

/// The `Accept-Encoding` header.
pub fn accept_encoding() -> (r: HeaderName)
    ensures
        r@ == "accept-encoding"@,
{
    proof {
        reveal_strlit("accept-encoding");
    }
    HeaderName::from_lowercase_str("accept-encoding")
}

/// The `Accept-Language` header.
pub fn accept_language() -> (r: HeaderName)
    ensures
        r@ == "accept-language"@,
{
    proof {
        reveal_strlit("accept-language");
    }
    HeaderName::from_lowercase_str("accept-language")
}

} // verus!
