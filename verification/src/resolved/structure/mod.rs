//! Data model of the resolved phase.
pub mod data_type;
pub mod expression;
pub mod known_data;
pub mod value;

pub use data_type::{BaseType, DataType};
pub use expression::{BinaryOperator, UnaryOperator};
