use vstd::prelude::*;

use crate::errors::Error;
use crate::headers::{HeaderValue, HeaderValues};
use crate::text::all_ascii;

verus! {

/// Types that can be converted to one or more `HeaderValue`s.
pub trait ToHeaderValues {
    /// The values this converts to, or `None` when the conversion fails.
    spec fn header_values_spec(&self) -> Option<Seq<Seq<char>>>;

    /// Converts this object to its header values.
    fn to_header_values(&self) -> (r: Result<HeaderValues, Error>)
        ensures
            match r {
                Ok(v) => self.header_values_spec() == Some(v@),
                Err(_) => self.header_values_spec() is None,
            },
    ;
}

impl ToHeaderValues for HeaderValue {
    open spec fn header_values_spec(&self) -> Option<Seq<Seq<char>>> {
        Some(seq![self@])
    }

    fn to_header_values(&self) -> (r: Result<HeaderValues, Error>) {
        Ok(HeaderValues::new(self.clone()))
    }
}

impl ToHeaderValues for HeaderValues {
    open spec fn header_values_spec(&self) -> Option<Seq<Seq<char>>> {
        Some(self@)
    }

    fn to_header_values(&self) -> (r: Result<HeaderValues, Error>) {
        let n = self.len();
        let mut out = HeaderValues::new(self.get(0).unwrap().clone());
        assert(self@.take(1) =~= seq![self@[0]]);
        let mut i: usize = 1;
        while i < n
            invariant
                n == self@.len(),
                1 <= i <= n,
                out@ == self@.take(i as int),
            decreases n - i,
        {
            let v = self.get(i).unwrap();
            out.append(HeaderValues::new(v.clone()));
            assert(self@.take(i + 1) =~= self@.take(i as int) + seq![self@[i as int]]);
            i = i + 1;
        }
        assert(self@.take(n as int) =~= self@);
        Ok(out)
    }
}

impl<'a> ToHeaderValues for &'a str {
    open spec fn header_values_spec(&self) -> Option<Seq<Seq<char>>> {
        if all_ascii((*self)@) {
            Some(seq![(*self)@])
        } else {
            None
        }
    }

    fn to_header_values(&self) -> (r: Result<HeaderValues, Error>) {
        let v = HeaderValue::from_str(*self)?;
        Ok(HeaderValues::new(v))
    }
}

impl ToHeaderValues for String {
    open spec fn header_values_spec(&self) -> Option<Seq<Seq<char>>> {
        if all_ascii(self@) {
            Some(seq![self@])
        } else {
            None
        }
    }

    fn to_header_values(&self) -> (r: Result<HeaderValues, Error>) {
        let v = HeaderValue::from_str(self.as_str())?;
        Ok(HeaderValues::new(v))
    }
}

} // verus!
