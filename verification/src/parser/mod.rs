//! Turning tokens of the grammar into values.
pub mod convert;
