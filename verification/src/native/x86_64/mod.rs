//! Machine code for x86-64.
pub mod encoding;
pub mod ingest;

pub use ingest::{ingest, AssembledProgram, AssemblyError};
