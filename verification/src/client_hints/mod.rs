//! Client hint headers.

mod save_data;

pub use save_data::{SaveData, save_data_result, save_data_text, law_save_data_round_trip, law_save_data_values};
