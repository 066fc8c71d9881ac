//! IANA Media Types, under the name `Mime`.

pub use crate::media_type::{
    any, byte_stream, css, form, html, ico, javascript, jpeg, json, multipart_form, plain, png,
    sse, svg, wasm, xml, MediaType as Mime, ParamName, ParamValue,
};
