//! The program after specialization to a target machine: flat instructions
//! over native variables, annotated with liveness information.
pub mod general;
pub mod x86_64;
