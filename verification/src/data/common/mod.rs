pub mod common_raw_data;
pub mod data_formats;
pub mod ordering;
pub mod processed_data_accessor;
pub mod time_series_data_processor;
pub mod utils;
