//! HTTP authentication and authorization.

mod authentication_scheme;
mod authorization;
mod basic_auth;

pub use authentication_scheme::{
    AuthenticationScheme, law_scheme_round_trip, scheme_from_name, scheme_name,
};
pub use authorization::{
    Authorization, authorization_error, authorization_of, authorization_text,
    law_authorization_round_trip, lemma_authorization_text_ascii, lemma_scheme_name_ascii,
};
pub use basic_auth::{
    BasicAuth, base64_decoded, base64_encoded, is_base64_char, credentials_error,
    basic_credentials_result, decoded_credentials_result, basic_auth_text, law_basic_auth_round_trip,
};
