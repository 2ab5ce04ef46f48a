//! The simple phase: programs whose variables have fully known types.
pub mod structure;
