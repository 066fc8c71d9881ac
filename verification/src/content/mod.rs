//! HTTP Content headers.

mod content_length;

pub use content_length::{ContentLength, content_length_result, law_content_length_round_trip};
mod encoding;
pub use encoding::{Encoding, encoding_name, encoding_of, lemma_encoding_names, law_encoding_tokens};
mod content_encoding;
pub use content_encoding::{
    ContentEncoding, content_encoding_result, encodings_in_parts, encodings_in_values,
    join_encodings, encoding_parts, law_content_encoding_round_trip,
};
mod encoding_directive;
pub use encoding_directive::{
    EncodingDirective, encoding_directive_name, encoding_directive_of,
    lemma_encoding_directive_names,
};
mod content_location;
pub use content_location::{ContentLocation, content_location_result};
