//! Typed HTTP headers, media types, methods and dates, with their
//! parsing and formatting logic proved against mathematical models.

pub mod auth;
pub mod body;
pub mod cache;
pub mod client_hints;
pub mod conditional;
pub mod content;
pub mod errors;
pub mod headers;
pub mod language;
pub mod media_type;
pub mod method;
pub mod mime;
pub mod multipart;
pub mod text;
pub mod url;
pub mod utils;

pub use errors::{Error, Result};
pub use headers::Headers;
pub use media_type::MediaType;
pub use method::Method;
pub use mime::Mime;
pub use url::Url;
