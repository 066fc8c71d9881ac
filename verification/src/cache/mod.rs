//! HTTP caching headers.

mod etag;
mod clear_site_data;

pub use etag::{
    Etag, etag_of, etag_result, etag_text, law_etag_round_trip, lemma_etag_of_text, lemma_etag_text_ascii,
    no_backslash,
};
pub use clear_site_data::{
    ClearDirective, clear_directive_text, wildcard_text, clear_directive_of, clear_in_parts,
    clear_in_values, clear_site_data_result, join_clear, clear_site_data_text,
    lemma_clear_text_ascii, clear_parts_of, law_clear_site_data_round_trip, ClearSiteData,
};
mod cache_control;
pub use cache_control::{CacheDirective, is_request_directive, is_response_directive};
