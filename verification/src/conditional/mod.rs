//! HTTP conditional headers.
//!
//! Web page performance can be significantly improved by caching resources.
//! This submodule includes headers and types to communicate how and when to
//! cache resources.

mod match_directive;

pub use crate::cache::Etag as ETag;
pub use match_directive::{
    MatchDirective, match_directive_of, match_directive_text, match_directive_ascii,
    lemma_match_directive_text_ascii,
};
mod if_match;
pub use if_match::{
    IfMatch, directives_in_parts, directives_in_values, if_match_result, join_directives,
    directives_ascii, lemma_join_directives_ascii, plain_directive, directive_parts,
    law_if_match_round_trip,
};
mod if_modified_since;
pub use if_modified_since::{
    IfModifiedSince, if_modified_since_result, law_if_modified_since_round_trip,
};
mod last_modified;
pub use last_modified::{LastModified, last_modified_result, law_last_modified_round_trip};
mod if_range;
pub use if_range::{
    IfRange, IfRangeView, if_range_of, if_range_result, if_range_text, if_range_ok,
    law_if_range_date_round_trip, law_if_range_etag_round_trip,
};
mod vary_directive;
pub use vary_directive::{
    VaryDirective, law_vary_directive_round_trip, vary_directive_of, vary_directive_text,
};
