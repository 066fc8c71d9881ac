//! Helpers shared by the typed headers.

pub mod date;
