//! The compiler driver: the sources it compiles and what it measured.
pub mod compiler;

pub use compiler::{Compiler, PerformanceCounter, PerformanceCounters};
