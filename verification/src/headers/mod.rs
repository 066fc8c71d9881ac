//! HTTP headers.

mod header_name;
mod header_value;
mod header_values;
mod parse_error;

pub use header_name::{HeaderName, valid_name, lemma_lowercase_valid};
pub use header_value::{HeaderValue, debug_str, debug_escape, hex_digits, hex_char};
pub(crate) use header_value::{push_debug_str, lemma_debug_str_ends};
pub use header_values::{HeaderValues, debug_items, debug_values};
pub(crate) use header_values::push_debug_values;
pub use parse_error::ParseError;
mod to_header_values;
pub use to_header_values::ToHeaderValues;
pub use to_header_values::ToHeaderValues as ToFieldValues;
mod headers;
pub use headers::{
    Headers, Entries, entry_index, lookup, insert_entry, append_entry, remove_entry,
    distinct_names, law_lookup_after_insert, law_lookup_after_remove, law_lookup_after_append, debug_entry,
    debug_entry_items, debug_entries,
};
mod names;
mod values;
pub use names::{Names, entry_names};
pub use values::{
    Values, all_values, lemma_all_values_prefix, lemma_all_values_take, lemma_all_values_update,
};
mod typed;
pub mod constants;
pub use typed::{
    has_wildcard_part, kept_parts, last_value, nonempty_parts, proposal_parts, same_result,
    star_in_parts,
};
pub(crate) use typed::{comma_parts, last_value_of, set_single};
mod header;
pub use header::{Header, ToHeader, apply_header, to_header_ok};
