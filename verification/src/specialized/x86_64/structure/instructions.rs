//! The instruction set of x86-64 specialized programs.
use vstd::prelude::*;

use crate::specialized::general::{Instruction as InstructionTrait, Value};

verus! {

/// A comparison result an assertion can require.
#[derive(Clone, Copy, Debug, PartialEq, Eq, Structural)]
pub enum Condition {
    LessThan,
    GreaterThan,
    LessThanOrEqual,
    GreaterThanOrEqual,
    Equal,
    NotEqual,
}

impl Condition {
    /// The condition code of the x86 conditional jump taken when the
    /// condition holds after a signed comparison (`jl`, `jg`, `jle`, `jge`,
    /// `je`, `jne`).
    pub fn code(&self) -> (r: u8)
        ensures
            r < 16,
            *self == Condition::LessThan ==> r == 0xC,
            *self == Condition::GreaterThan ==> r == 0xF,
            *self == Condition::LessThanOrEqual ==> r == 0xE,
            *self == Condition::GreaterThanOrEqual ==> r == 0xD,
            *self == Condition::Equal ==> r == 0x4,
            *self == Condition::NotEqual ==> r == 0x5,
    {
        match self {
            Condition::LessThan => 0xC,
            Condition::GreaterThan => 0xF,
            Condition::LessThanOrEqual => 0xE,
            Condition::GreaterThanOrEqual => 0xD,
            Condition::Equal => 0x4,
            Condition::NotEqual => 0x5,
        }
    }
}

/// The width of a packed operation, in bits.
#[derive(Clone, Copy, Debug, PartialEq, Eq, Structural)]
pub enum ParallelWidth {
    W128,
    W256,
    W512,
}

#[derive(Clone, Copy, Debug, PartialEq, Eq, Structural)]
pub enum BinaryOperator {
    AddI,
    SubI,
    MulI,
    DivI,
    ModI,
    AddPackedI(ParallelWidth),
    SubPackedI(ParallelWidth),
    MulPackedI(ParallelWidth),
    DivPackedI(ParallelWidth),
    ModPackedI(ParallelWidth),
    AddF,
    SubF,
    MulF,
    DivF,
    ModF,
    AddPackedF(ParallelWidth),
    SubPackedF(ParallelWidth),
    MulPackedF(ParallelWidth),
    DivPackedF(ParallelWidth),
    ModPackedF(ParallelWidth),
    BAnd,
    BOr,
    BXor,
}

#[derive(Debug)]
pub enum Instruction {
    Move { from: Value, to: Value },
    BinaryOperation { op: BinaryOperator, a: Value, b: Value, x: Value },
    Compare { a: Value, b: Value },
    Assert(Condition),
}

impl InstructionTrait for Instruction {
    open spec fn spec_reads_from(&self) -> Seq<Value> {
        match *self {
            Instruction::Move { from, .. } => seq![from],
            Instruction::BinaryOperation { a, b, .. } => seq![a, b],
            Instruction::Compare { a, b } => seq![a, b],
            Instruction::Assert(..) => seq![],
        }
    }

    open spec fn spec_writes_to(&self) -> Seq<Value> {
        match *self {
            Instruction::Move { to, .. } => seq![to],
            Instruction::BinaryOperation { x, .. } => seq![x],
            Instruction::Compare { .. } => seq![],
            Instruction::Assert(..) => seq![],
        }
    }

    fn reads_from(&self) -> (r: Vec<&Value>) {
        match self {
            Instruction::Move { from, .. } => vec![from],
            Instruction::BinaryOperation { a, b, .. } => vec![a, b],
            Instruction::Compare { a, b } => vec![a, b],
            Instruction::Assert(..) => vec![],
        }
    }

    fn writes_to(&self) -> (r: Vec<&Value>) {
        match self {
            Instruction::Move { to, .. } => vec![to],
            Instruction::BinaryOperation { x, .. } => vec![x],
            Instruction::Compare { .. } => vec![],
            Instruction::Assert(..) => vec![],
        }
    }
}

} // verus!
