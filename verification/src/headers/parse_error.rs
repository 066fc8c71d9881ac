use vstd::prelude::*;

verus! {

/// An error returned when failing to convert into an HTTP header.
#[derive(Clone, Copy, Debug, Eq, PartialEq)]
pub struct ParseError {
    _private: (),
}

impl ParseError {
    pub(crate) fn new() -> Self {
        Self { _private: () }
    }
}

} // verus!
