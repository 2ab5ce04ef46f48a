//! Native code generation: turning a specialized program into machine code.
pub mod x86_64;
