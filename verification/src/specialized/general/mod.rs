//! The parts of a specialized program that do not depend on the target.
pub mod program;
pub mod value;

pub use crate::shared::{NativeBaseType, NativeType, NativeVar, ProxyMode};
pub use program::{GenericProgram, Instruction, LabelId, VariableId, WrappedInstruction};
pub use value::{Index, Value};
