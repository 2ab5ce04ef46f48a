//! Instructions of x86-64 specialized programs.
use vstd::prelude::*;

pub mod instructions;

pub use crate::specialized::general::{
    Index, NativeBaseType, NativeType, NativeVar, ProxyMode, Value, VariableId,
};
pub use instructions::{BinaryOperator, Condition, Instruction, ParallelWidth};

use crate::specialized::general::{GenericProgram, WrappedInstruction};

verus! {

pub type Program = GenericProgram<Instruction>;

pub type AnnotatedInstruction = WrappedInstruction<Instruction>;

} // verus!
