//! Specialized programs for x86-64 machines.
pub mod structure;
