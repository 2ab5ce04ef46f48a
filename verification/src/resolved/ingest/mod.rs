//! Turning the vague phase's results into resolved programs.
pub mod data_type;
pub mod known_data;
pub mod util;

pub use data_type::DataType;
