//! The resolved phase: programs whose data types are fully known.
pub mod ingest;
pub mod structure;
