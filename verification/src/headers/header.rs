use vstd::prelude::*;

use crate::headers::{insert_entry, set_single, HeaderName, HeaderValue, Headers};
use crate::text::{all_ascii, lowercase};

verus! {

/// A header name and value pair.
pub trait Header {
    /// The condition under which this pair can be turned into a header.
    spec fn header_ok(&self) -> bool;

    /// The name of the header.
    spec fn name_spec(&self) -> Seq<char>;

    /// The value of the header.
    spec fn value_spec(&self) -> Seq<char>;

    /// Access the header's name.
    fn header_name(&self) -> (r: HeaderName)
        requires
            self.header_ok(),
        ensures
            r@ == self.name_spec(),
    ;

    /// Access the header's value.
    fn header_value(&self) -> (r: HeaderValue)
        requires
            self.header_ok(),
        ensures
            r@ == self.value_spec(),
    ;

}

/// Insert the header name and value of `h` into a `Headers` map, replacing
/// the values of that name.
pub fn apply_header<H: Header>(h: &H, headers: &mut Headers)
    requires
        h.header_ok(),
    ensures
        final(headers)@ == insert_entry(old(headers)@, h.name_spec(), seq![h.value_spec()]),
{
    set_single(headers, h.header_name(), h.header_value());
}

impl<'a, 'b> Header for (&'a str, &'b str) {
    open spec fn header_ok(&self) -> bool {
        all_ascii(self.0@) && all_ascii(self.1@)
    }

    open spec fn name_spec(&self) -> Seq<char> {
        lowercase(self.0@)
    }

    open spec fn value_spec(&self) -> Seq<char> {
        self.1@
    }

    fn header_name(&self) -> (r: HeaderName) {
        HeaderName::from_str(self.0).unwrap()
    }

    fn header_value(&self) -> (r: HeaderValue) {
        HeaderValue::from_str(self.1).unwrap()
    }
}

impl Header for (String, String) {
    open spec fn header_ok(&self) -> bool {
        all_ascii(self.0@) && all_ascii(self.1@)
    }

    open spec fn name_spec(&self) -> Seq<char> {
        lowercase(self.0@)
    }

    open spec fn value_spec(&self) -> Seq<char> {
        self.1@
    }

    fn header_name(&self) -> (r: HeaderName) {
        HeaderName::from_str(self.0.as_str()).unwrap()
    }

    fn header_value(&self) -> (r: HeaderValue) {
        HeaderValue::from_str(self.1.as_str()).unwrap()
    }
}

/// What converting a name and a value to a header pair gives: the name
/// must be ASCII and is lowercased, and the value must be ASCII.
pub open spec fn to_header_ok(name: Seq<char>, value: Seq<char>) -> bool {
    all_ascii(name) && all_ascii(value)
}

/// A trait for objects which can be converted or resolved to a `HeaderName`
/// and `HeaderValue` pair.
pub trait ToHeader: Sized {
    /// The name text of the pair.
    spec fn name_text(&self) -> Seq<char>;

    /// The value text of the pair.
    spec fn value_text(&self) -> Seq<char>;

    /// Converts this object to a `HeaderName` and `HeaderValue` pair.
    fn to_header(self) -> (r: Result<(HeaderName, HeaderValue), crate::errors::Error>)
        ensures
            match r {
                Ok((n, v)) => to_header_ok(self.name_text(), self.value_text()) && n@ == lowercase(
                    self.name_text(),
                ) && v@ == self.value_text(),
                Err(_) => !to_header_ok(self.name_text(), self.value_text()),
            },
    ;
}

impl<'a, 'b> ToHeader for (&'a str, &'b str) {
    open spec fn name_text(&self) -> Seq<char> {
        self.0@
    }

    open spec fn value_text(&self) -> Seq<char> {
        self.1@
    }

    fn to_header(self) -> (r: Result<(HeaderName, HeaderValue), crate::errors::Error>) {
        let n = match HeaderName::from_str(self.0) {
            Ok(n) => n,
            Err(_) => {
                return Err(
                    crate::errors::Error::Status(500, "Error parsing a string into an HTTP value"),
                )
            },
        };
        let v = match HeaderValue::from_str(self.1) {
            Ok(v) => v,
            Err(e) => return Err(e),
        };
        Ok((n, v))
    }
}

} // verus!
