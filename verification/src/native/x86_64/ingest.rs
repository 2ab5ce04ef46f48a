//! Assembling a specialized program into x86-64 machine code.
//!
//! Functions beginning with `write_` add machine code to the output.
//! Functions beginning with `meta_` store or retrieve what the assembler
//! knows about the state of the machine at the current point of the
//! program; they add nothing to the output. The others do a mix of both.
//! What helpers can do to a register:
//! - Lock: a locked register is not spilled or overwritten by other helpers.
//! - Unlock: a temporary value in the register is forgotten.
//! - Prepare: makes sure the register can be written without losing data
//!   that is needed later.
//! - Write: prepares and locks a register and adds code that moves a value
//!   into it.
use std::collections::HashMap;

use vstd::prelude::*;

use super::encoding::{le_bytes, push_le_bytes};
use crate::shared::{NativeBaseType, NativeData};
use crate::specialized::general::{Instruction as InstructionTrait, Value, VariableId};
use crate::specialized::x86_64::structure::{
    AnnotatedInstruction, BinaryOperator, Condition, Instruction, Program,
};

verus! {

broadcast use vstd::std_specs::hash::group_hash_axioms;

/// Why a program could not be assembled.
#[derive(Clone, Copy, Debug, PartialEq, Eq, Structural)]
pub enum AssemblyError {
    /// Every register of the needed kind is taken; moving registers out to
    /// memory to free one is not supported.
    OutOfRegisters,
    /// XMM registers cannot be loaded with an immediate value.
    XmmImmediate,
    /// Values of this type cannot be held in a register.
    UnsupportedType,
    /// This operator has no machine code.
    UnsupportedOperator,
    /// The storage block would not fit in the address space.
    StorageFull,
}

/// Registers in different namespaces are manipulated by different sets of
/// instructions.
#[derive(Clone, Copy, Debug, PartialEq, Eq, Structural)]
pub enum RegisterNamespace {
    Primary,
    XMM,
}

impl RegisterNamespace {
    pub open spec fn spec_compatible(self, data_type: NativeBaseType) -> bool {
        match data_type {
            NativeBaseType::I32 => self == RegisterNamespace::Primary,
            NativeBaseType::F32 => self == RegisterNamespace::XMM,
            NativeBaseType::B8 => self == RegisterNamespace::Primary,
        }
    }

    /// Whether registers of this namespace can hold values of `data_type`.
    pub fn is_compatible_with(&self, data_type: NativeBaseType) -> (r: bool)
        ensures
            r == self.spec_compatible(data_type),
    {
        match data_type {
            NativeBaseType::I32 => *self == RegisterNamespace::Primary,
            NativeBaseType::F32 => *self == RegisterNamespace::XMM,
            NativeBaseType::B8 => *self == RegisterNamespace::Primary,
        }
    }
}

/// The registers of the machine, numbered as the machine numbers them.
#[derive(Clone, Copy, Debug, PartialEq, Eq, Structural)]
pub enum Register {
    A,
    C,
    D,
    B,
    SP,
    StorageAddress,
    SI,
    DI,
    XMM0,
    XMM1,
    XMM2,
    XMM3,
    XMM4,
    XMM5,
    XMM6,
    XMM7,
}

pub const NUM_REGISTERS: usize = 16;

/// The register with number `index`, if there is one.
pub open spec fn spec_register_from_index(index: int) -> Option<Register> {
    if index == 0 {
        Some(Register::A)
    } else if index == 1 {
        Some(Register::C)
    } else if index == 2 {
        Some(Register::D)
    } else if index == 3 {
        Some(Register::B)
    } else if index == 4 {
        Some(Register::SP)
    } else if index == 5 {
        Some(Register::StorageAddress)
    } else if index == 6 {
        Some(Register::SI)
    } else if index == 7 {
        Some(Register::DI)
    } else if index == 8 {
        Some(Register::XMM0)
    } else if index == 9 {
        Some(Register::XMM1)
    } else if index == 10 {
        Some(Register::XMM2)
    } else if index == 11 {
        Some(Register::XMM3)
    } else if index == 12 {
        Some(Register::XMM4)
    } else if index == 13 {
        Some(Register::XMM5)
    } else if index == 14 {
        Some(Register::XMM6)
    } else if index == 15 {
        Some(Register::XMM7)
    } else {
        None
    }
}

impl Register {
    /// The number of the register: the primary registers first, then the
    /// XMM registers.
    pub open spec fn spec_index(self) -> int {
        match self {
            Register::A => 0,
            Register::C => 1,
            Register::D => 2,
            Register::B => 3,
            Register::SP => 4,
            Register::StorageAddress => 5,
            Register::SI => 6,
            Register::DI => 7,
            Register::XMM0 => 8,
            Register::XMM1 => 9,
            Register::XMM2 => 10,
            Register::XMM3 => 11,
            Register::XMM4 => 12,
            Register::XMM5 => 13,
            Register::XMM6 => 14,
            Register::XMM7 => 15,
        }
    }

    /// The value that names this register in an opcode.
    pub open spec fn spec_opcode_index(self) -> int {
        self.spec_index() % 8
    }

    pub open spec fn spec_namespace(self) -> RegisterNamespace {
        if self.spec_index() < 8 {
            RegisterNamespace::Primary
        } else {
            RegisterNamespace::XMM
        }
    }

    pub fn index(&self) -> (r: usize)
        ensures
            r == self.spec_index(),
    {
        match self {
            Register::A => 0,
            Register::C => 1,
            Register::D => 2,
            Register::B => 3,
            Register::SP => 4,
            Register::StorageAddress => 5,
            Register::SI => 6,
            Register::DI => 7,
            Register::XMM0 => 8,
            Register::XMM1 => 9,
            Register::XMM2 => 10,
            Register::XMM3 => 11,
            Register::XMM4 => 12,
            Register::XMM5 => 13,
            Register::XMM6 => 14,
            Register::XMM7 => 15,
        }
    }

    /// The register with number `index`, if there is one.
    pub fn from_index(index: usize) -> (r: Option<Register>)
        ensures
            r == spec_register_from_index(index as int),
    {
        match index {
            0 => Some(Register::A),
            1 => Some(Register::C),
            2 => Some(Register::D),
            3 => Some(Register::B),
            4 => Some(Register::SP),
            5 => Some(Register::StorageAddress),
            6 => Some(Register::SI),
            7 => Some(Register::DI),
            8 => Some(Register::XMM0),
            9 => Some(Register::XMM1),
            10 => Some(Register::XMM2),
            11 => Some(Register::XMM3),
            12 => Some(Register::XMM4),
            13 => Some(Register::XMM5),
            14 => Some(Register::XMM6),
            15 => Some(Register::XMM7),
            _ => None,
        }
    }

    /// What value to use to indicate this register in an opcode.
    pub fn opcode_index_u8(&self) -> (r: u8)
        ensures
            r == self.spec_opcode_index(),
            r < 8,
    {
        match self {
            Register::A => 0,
            Register::C => 1,
            Register::D => 2,
            Register::B => 3,
            Register::SP => 4,
            Register::StorageAddress => 5,
            Register::SI => 6,
            Register::DI => 7,
            Register::XMM0 => 0,
            Register::XMM1 => 1,
            Register::XMM2 => 2,
            Register::XMM3 => 3,
            Register::XMM4 => 4,
            Register::XMM5 => 5,
            Register::XMM6 => 6,
            Register::XMM7 => 7,
        }
    }

    /// The namespace of the register: registers in different namespaces
    /// use different sets of instructions.
    pub fn get_namespace(&self) -> (r: RegisterNamespace)
        ensures
            r == self.spec_namespace(),
    {
        match self {
            Register::A
            | Register::C
            | Register::D
            | Register::B
            | Register::SP
            | Register::StorageAddress
            | Register::SI
            | Register::DI => RegisterNamespace::Primary,
            Register::XMM0
            | Register::XMM1
            | Register::XMM2
            | Register::XMM3
            | Register::XMM4
            | Register::XMM5
            | Register::XMM6
            | Register::XMM7 => RegisterNamespace::XMM,
        }
    }

    pub fn is_primary(&self) -> (r: bool)
        ensures
            r == (self.spec_namespace() == RegisterNamespace::Primary),
    {
        self.get_namespace() == RegisterNamespace::Primary
    }

    pub fn is_xmm(&self) -> (r: bool)
        ensures
            r == (self.spec_namespace() == RegisterNamespace::XMM),
    {
        self.get_namespace() == RegisterNamespace::XMM
    }

    pub fn is_compatible_with(&self, data_type: NativeBaseType) -> (r: bool)
        ensures
            r == self.spec_namespace().spec_compatible(data_type),
    {
        self.get_namespace().is_compatible_with(data_type)
    }
}

/// Numbering registers is one to one: every register has a number below
/// 16, and the register with a register's number is that register.
pub proof fn lemma_register_index_roundtrip(r: Register, s: Register)
    ensures
        0 <= r.spec_index() < NUM_REGISTERS,
        spec_register_from_index(r.spec_index()) == Some(r),
        r.spec_index() == s.spec_index() ==> r == s,
{
}

/// Registers that can hold integers. `StorageAddress` holds the start of
/// the storage block and is never given to a variable; A and D have
/// special meanings for some instructions, so they come last.
pub open spec fn int_registers() -> Seq<Register> {
    seq![
        Register::C,
        Register::B,
        Register::SP,
        Register::SI,
        Register::DI,
        Register::A,
        Register::D,
    ]
}

/// Registers that can hold floats.
pub open spec fn float_registers() -> Seq<Register> {
    seq![
        Register::XMM0,
        Register::XMM1,
        Register::XMM2,
        Register::XMM3,
        Register::XMM4,
        Register::XMM5,
        Register::XMM6,
        Register::XMM7,
    ]
}

/// Every register that can hold the value of a variable.
pub open spec fn variable_registers() -> Seq<Register> {
    int_registers() + float_registers()
}

fn int_register_list() -> (r: [Register; 7])
    ensures
        r@ == int_registers(),
{
    let r = [
        Register::C,
        Register::B,
        Register::SP,
        Register::SI,
        Register::DI,
        Register::A,
        Register::D,
    ];
    assert(r@ =~= int_registers());
    r
}

fn float_register_list() -> (r: [Register; 8])
    ensures
        r@ == float_registers(),
{
    let r = [
        Register::XMM0,
        Register::XMM1,
        Register::XMM2,
        Register::XMM3,
        Register::XMM4,
        Register::XMM5,
        Register::XMM6,
        Register::XMM7,
    ];
    assert(r@ =~= float_registers());
    r
}

fn variable_register_list() -> (r: [Register; 15])
    ensures
        r@ == variable_registers(),
{
    let r = [
        Register::C,
        Register::B,
        Register::SP,
        Register::SI,
        Register::DI,
        Register::A,
        Register::D,
        Register::XMM0,
        Register::XMM1,
        Register::XMM2,
        Register::XMM3,
        Register::XMM4,
        Register::XMM5,
        Register::XMM6,
        Register::XMM7,
    ];
    assert(r@ =~= variable_registers());
    r
}

/// What the assembler knows a register holds.
#[derive(Clone, Copy, Debug, PartialEq, Eq, Structural)]
pub enum RegisterContent {
    /// Nothing of importance.
    Empty,
    /// A value that is no longer needed once the register is unlocked.
    Temporary,
    /// The variable, which is still needed after the register is unlocked.
    Variable(VariableId),
}

/// Every variable an operand names is a variable of a program with `n`
/// variables.
pub open spec fn value_in_range(value: Value, n: nat) -> bool {
    match value {
        Value::VariableAccess { variable, .. } => variable.0 < n,
        Value::Literal(..) => true,
    }
}

pub open spec fn instruction_in_range(instruction: Instruction, n: nat) -> bool {
    match instruction {
        Instruction::Move { from, to } => value_in_range(from, n) && value_in_range(to, n),
        Instruction::BinaryOperation { a, b, x, .. } => value_in_range(a, n) && value_in_range(b, n)
            && value_in_range(x, n),
        Instruction::Compare { a, b } => value_in_range(a, n) && value_in_range(b, n),
        Instruction::Assert(..) => true,
    }
}

pub open spec fn annotated_in_range(instruction: AnnotatedInstruction, n: nat) -> bool {
    &&& instruction_in_range(instruction.instruction, n)
    &&& forall|i: int| 0 <= i < instruction.kills@.len() ==> (#[trigger] instruction.kills@[i]).0 < n
}

/// Every variable the program names exists.
pub open spec fn program_in_range(program: Program) -> bool {
    let n = program.spec_variables().len();
    &&& forall|i: int|
        0 <= i < program.spec_inputs().len() ==> (#[trigger] program.spec_inputs()[i]).0 < n
    &&& forall|i: int|
        0 <= i < program.spec_outputs().len() ==> (#[trigger] program.spec_outputs()[i]).0 < n
    &&& forall|i: int|
        0 <= i < program.spec_instructions().len() ==> annotated_in_range(
            #[trigger] program.spec_instructions()[i],
            n,
        )
}

/// The type of a variable of the program.
pub open spec fn variable_type(program: Program, variable: VariableId) -> NativeBaseType {
    program.spec_variables()[variable.0 as int].typ.base
}

/// The ModR/M byte naming two registers.
pub open spec fn modrm_two(first: Register, second: Register) -> u8 {
    (0xC0 + 8 * first.spec_opcode_index() + second.spec_opcode_index()) as u8
}

/// The ModR/M byte naming a register and `[StorageAddress + disp32]`.
pub open spec fn modrm_disp32(register: Register) -> u8 {
    (0x85 + 8 * register.spec_opcode_index()) as u8
}

/// The opcode that loads a 32-bit value from memory into a register.
pub open spec fn load_opcode(namespace: RegisterNamespace) -> Seq<u8> {
    match namespace {
        RegisterNamespace::Primary => seq![0x8bu8],
        RegisterNamespace::XMM => seq![0xf3u8, 0x0fu8, 0x10u8],
    }
}

/// The opcode that stores a 32-bit register into its second operand.
pub open spec fn store_opcode(namespace: RegisterNamespace) -> Seq<u8> {
    match namespace {
        RegisterNamespace::Primary => seq![0x89u8],
        RegisterNamespace::XMM => seq![0xf3u8, 0x0fu8, 0x11u8],
    }
}

/// Restores the stack pointer saved at the start of storage
/// (`mov rsp, [rbp]`).
pub open spec fn restore_rsp_bytes() -> Seq<u8> {
    seq![0x48u8, 0x8bu8, 0x65u8, 0x00u8]
}

/// The code that starts every program: save the callee-saved registers,
/// load the storage address (8 zero bytes, overwritten once storage is
/// allocated), save the stack pointer, call the body, then restore the
/// registers and return.
pub open spec fn prologue_bytes() -> Seq<u8> {
    seq![0x53u8, 0x55, 0x41, 0x54, 0x41, 0x55, 0x41, 0x56, 0x41, 0x57]
        + seq![0x48u8, 0xbd]
        + le_bytes(0, 8)
        + seq![0x48u8, 0x89, 0x65, 0x00]
        + seq![0x48u8, 0x83, 0x6d, 0x00, 0x08]
        + seq![0xe8u8]
        + le_bytes(11, 4)
        + seq![0x41u8, 0x5f, 0x41, 0x5e, 0x41, 0x5d, 0x41, 0x5c, 0x5d, 0x5b]
        + seq![0xc3u8]
}

/// The first register of `list` that holds `content`.
pub open spec fn first_holding(
    contents: Seq<RegisterContent>,
    list: Seq<Register>,
    content: RegisterContent,
) -> Option<Register>
    decreases list.len(),
{
    if list.len() == 0 {
        None
    } else if contents[list[0].spec_index()] == content {
        Some(list[0])
    } else {
        first_holding(contents, list.drop_first(), content)
    }
}

/// The first register of `list` that is empty and not locked.
pub open spec fn first_unused(contents: Seq<RegisterContent>, locked: Seq<bool>, list: Seq<Register>) -> Option<
    Register,
>
    decreases list.len(),
{
    if list.len() == 0 {
        None
    } else if contents[list[0].spec_index()] == RegisterContent::Empty && !locked[list[0].spec_index()] {
        Some(list[0])
    } else {
        first_unused(contents, locked, list.drop_first())
    }
}

/// Whether register number `i` can hold a variable: every register but
/// `StorageAddress`.
pub open spec fn is_variable_register(i: int) -> bool {
    0 <= i < NUM_REGISTERS && i != 5
}

/// Where each register sits in the list of registers that can hold
/// variables.
proof fn lemma_variable_register_indices()
    ensures
        forall|j: int|
            0 <= j < 15 ==> #[trigger] variable_registers()[j].spec_index() == if j == 0 {
                1
            } else if j == 1 {
                3
            } else if j == 2 {
                4
            } else if j == 3 {
                6
            } else if j == 4 {
                7
            } else if j == 5 {
                0
            } else if j == 6 {
                2
            } else {
                j + 1
            },
        variable_registers().len() == 15,
{
    let l = variable_registers();
    assert(l =~= seq![
        Register::C,
        Register::B,
        Register::SP,
        Register::SI,
        Register::DI,
        Register::A,
        Register::D,
        Register::XMM0,
        Register::XMM1,
        Register::XMM2,
        Register::XMM3,
        Register::XMM4,
        Register::XMM5,
        Register::XMM6,
        Register::XMM7,
    ]);
}

/// Whether one of the first `k` registers of `list` is register number `i`.
pub open spec fn covered(list: Seq<Register>, k: int, i: int) -> bool {
    exists|j: int| 0 <= j < k && #[trigger] list[j].spec_index() == i
}

/// Killing `variable`: every register that can hold variables and holds
/// it now holds a temporary value.
pub open spec fn kill_one(contents: Seq<RegisterContent>, variable: VariableId) -> Seq<RegisterContent> {
    Seq::new(
        contents.len(),
        |i: int|
            if is_variable_register(i) && contents[i] == RegisterContent::Variable(variable) {
                RegisterContent::Temporary
            } else {
                contents[i]
            },
    )
}

pub open spec fn kill_all(contents: Seq<RegisterContent>, kills: Seq<VariableId>) -> Seq<RegisterContent>
    decreases kills.len(),
{
    if kills.len() == 0 {
        contents
    } else {
        kill_one(kill_all(contents, kills.drop_last()), kills.last())
    }
}

/// A register found in a list is one of the list's registers.
proof fn lemma_first_holding_in_list(
    contents: Seq<RegisterContent>,
    list: Seq<Register>,
    content: RegisterContent,
)
    ensures
        first_holding(contents, list, content) matches Some(r) ==> list.contains(r)
            && contents[r.spec_index()] == content,
    decreases list.len(),
{
    if list.len() > 0 && contents[list[0].spec_index()] != content {
        lemma_first_holding_in_list(contents, list.drop_first(), content);
        if let Some(r) = first_holding(contents, list.drop_first(), content) {
            let i = choose|i: int| 0 <= i < list.drop_first().len() && list.drop_first()[i] == r;
            assert(list[i + 1] == r);
        }
    } else if list.len() > 0 {
        assert(list[0] == list[0]);
    }
}

proof fn lemma_first_unused_in_list(
    contents: Seq<RegisterContent>,
    locked: Seq<bool>,
    list: Seq<Register>,
)
    ensures
        first_unused(contents, locked, list) matches Some(r) ==> list.contains(r)
            && contents[r.spec_index()] == RegisterContent::Empty && !locked[r.spec_index()],
    decreases list.len(),
{
    if list.len() > 0 && !(contents[list[0].spec_index()] == RegisterContent::Empty
        && !locked[list[0].spec_index()]) {
        lemma_first_unused_in_list(contents, locked, list.drop_first());
        if let Some(r) = first_unused(contents, locked, list.drop_first()) {
            let i = choose|i: int| 0 <= i < list.drop_first().len() && list.drop_first()[i] == r;
            assert(list[i + 1] == r);
        }
    } else if list.len() > 0 {
        assert(list[0] == list[0]);
    }
}

/// Exactly one register that can hold variables holds `variable`.
pub open spec fn sole_holder(contents: Seq<RegisterContent>, variable: VariableId) -> bool {
    exists|i: int|
        is_variable_register(i) && #[trigger] contents[i] == RegisterContent::Variable(variable)
            && forall|j: int|
            is_variable_register(j) && j != i ==> contents[j] != RegisterContent::Variable(variable)
}

/// The variable an instruction stores its result in, if it names one.
pub open spec fn destination(instruction: Instruction) -> Option<VariableId> {
    match instruction {
        Instruction::Move { to, .. } => crate::specialized::general::value::accessed_variable(to),
        Instruction::BinaryOperation { x, .. } => crate::specialized::general::value::accessed_variable(x),
        _ => None,
    }
}

/// The code of an assertion: skip the next 10 bytes when the condition
/// holds; otherwise return 1 to report the failure.
pub open spec fn assert_bytes(condition: Condition) -> Seq<u8> {
    seq![(0x70 + condition_code(condition)) as u8, 10u8, 0xb8u8] + le_bytes(1, 4) + restore_rsp_bytes()
        + seq![0xc3u8]
}

/// The condition code `Condition::code` gives.
pub open spec fn condition_code(condition: Condition) -> int {
    match condition {
        Condition::LessThan => 0xC,
        Condition::GreaterThan => 0xF,
        Condition::LessThanOrEqual => 0xE,
        Condition::GreaterThanOrEqual => 0xD,
        Condition::Equal => 0x4,
        Condition::NotEqual => 0x5,
    }
}

/// A variable has, or can still get, a place in storage.
pub open spec fn storage_room(storage: Map<usize, usize>, storage_size: nat, variable: VariableId) -> bool {
    storage.contains_key(variable.0) || storage_size + 4 <= usize::MAX
}

/// The registers among the first `n` that hold `variable`, by number.
pub open spec fn holders(contents: Seq<RegisterContent>, variable: VariableId, n: int) -> Seq<Register>
    decreases n,
{
    if n <= 0 {
        seq![]
    } else {
        holders(contents, variable, n - 1) + match spec_register_from_index(n - 1) {
            Some(register) => if contents[n - 1] == RegisterContent::Variable(variable) {
                seq![register]
            } else {
                seq![]
            },
            None => seq![],
        }
    }
}

/// The code that stores each of `registers` to the storage at `address`.
pub open spec fn store_code(registers: Seq<Register>, address: nat) -> Seq<u8>
    decreases registers.len(),
{
    if registers.len() == 0 {
        seq![]
    } else {
        store_code(registers.drop_last(), address) + store_opcode(
            registers.last().spec_namespace(),
        ).push(modrm_disp32(registers.last())) + le_bytes(address, 4)
    }
}

/// A free register of the kind that holds values of type `data_type`.
pub open spec fn room_for(
    contents: Seq<RegisterContent>,
    locked: Seq<bool>,
    data_type: NativeBaseType,
) -> bool {
    match data_type {
        NativeBaseType::I32 => first_unused(contents, locked, int_registers()) is Some,
        NativeBaseType::F32 => first_unused(contents, locked, float_registers()) is Some,
        NativeBaseType::B8 => false,
    }
}

/// The register that a variable in `register` is moved to when the
/// register is freed: the first free one of the variable's kind.
pub open spec fn spill_target(
    contents: Seq<RegisterContent>,
    locked: Seq<bool>,
    program: Program,
    register: Register,
) -> Option<Register> {
    match contents[register.spec_index()] {
        RegisterContent::Variable(v) => match variable_type(program, v) {
            NativeBaseType::I32 => first_unused(contents, locked, int_registers()),
            NativeBaseType::F32 => first_unused(contents, locked, float_registers()),
            NativeBaseType::B8 => None,
        },
        _ => None,
    }
}

/// The code that frees `register`: a move of its variable to the spill
/// target, or nothing.
pub open spec fn spill_code(
    contents: Seq<RegisterContent>,
    locked: Seq<bool>,
    program: Program,
    register: Register,
) -> Seq<u8> {
    match spill_target(contents, locked, program, register) {
        Some(w) => store_opcode(register.spec_namespace()).push(modrm_two(register, w)),
        None => seq![],
    }
}

/// The register that `load_value_into_any` loads `value` into: the first
/// register already holding the variable, else the first free register of
/// the value's kind.
pub open spec fn load_target(
    contents: Seq<RegisterContent>,
    locked: Seq<bool>,
    program: Program,
    value: Value,
) -> Option<Register> {
    match value {
        Value::VariableAccess { variable, .. } => if held(contents, variable) {
            first_holding(contents, variable_registers(), RegisterContent::Variable(variable))
        } else {
            match variable_type(program, variable) {
                NativeBaseType::I32 => first_unused(contents, locked, int_registers()),
                NativeBaseType::F32 => first_unused(contents, locked, float_registers()),
                NativeBaseType::B8 => None,
            }
        },
        Value::Literal(..) => first_unused(contents, locked, int_registers()),
    }
}

/// What a register holds once `value` is loaded into it: the variable, or
/// a temporary value for a constant.
pub open spec fn content_of(value: Value) -> RegisterContent {
    match value {
        Value::VariableAccess { variable, .. } => RegisterContent::Variable(variable),
        Value::Literal(..) => RegisterContent::Temporary,
    }
}

/// What the registers hold once `register` is freed: its variable moved to
/// the spill target, and the register empty.
pub open spec fn spilled(
    contents: Seq<RegisterContent>,
    locked: Seq<bool>,
    program: Program,
    register: Register,
) -> Seq<RegisterContent> {
    match spill_target(contents, locked, program, register) {
        Some(w) => contents.update(w.spec_index(), contents[register.spec_index()]).update(
            register.spec_index(),
            RegisterContent::Empty,
        ),
        None => contents.update(register.spec_index(), RegisterContent::Empty),
    }
}

/// The registers and locks once `value` is loaded into its load target.
pub open spec fn after_load_any(
    contents: Seq<RegisterContent>,
    locked: Seq<bool>,
    program: Program,
    value: Value,
) -> (Seq<RegisterContent>, Seq<bool>) {
    match load_target(contents, locked, program, value) {
        Some(r) => (
            contents.update(r.spec_index(), content_of(value)),
            locked.update(r.spec_index(), true),
        ),
        None => (contents, locked),
    }
}

/// The registers and locks once `value` is loaded into `register`.
pub open spec fn after_load_into(
    contents: Seq<RegisterContent>,
    locked: Seq<bool>,
    program: Program,
    value: Value,
    register: Register,
) -> (Seq<RegisterContent>, Seq<bool>) {
    (
        spilled(contents, locked, program, register).update(register.spec_index(), content_of(value)),
        locked.update(register.spec_index(), true),
    )
}

/// The registers and locks once `register` is set to zero.
pub open spec fn after_load_zero(
    contents: Seq<RegisterContent>,
    locked: Seq<bool>,
    program: Program,
    register: Register,
) -> (Seq<RegisterContent>, Seq<bool>) {
    (
        spilled(contents, locked, program, register).update(
            register.spec_index(),
            RegisterContent::Temporary,
        ),
        locked.update(register.spec_index(), true),
    )
}

/// Some register that can hold variables holds `variable`.
pub open spec fn held(contents: Seq<RegisterContent>, variable: VariableId) -> bool {
    first_holding(contents, variable_registers(), RegisterContent::Variable(variable)) is Some
}

/// `register` can be freed: it holds no variable, or there is a free
/// register to move its variable to.
pub open spec fn can_prepare(
    contents: Seq<RegisterContent>,
    locked: Seq<bool>,
    program: Program,
    register: Register,
) -> bool {
    match contents[register.spec_index()] {
        RegisterContent::Variable(v) => room_for(contents, locked, variable_type(program, v)),
        _ => true,
    }
}

/// `value` can be loaded into some register: a variable that a register
/// already holds, a variable that gets a free register and a place in
/// storage, or an integer constant that gets a free integer register
/// (constants cannot be loaded into XMM registers, and booleans into none).
pub open spec fn can_load_any(
    contents: Seq<RegisterContent>,
    locked: Seq<bool>,
    storage: Map<usize, usize>,
    storage_size: nat,
    program: Program,
    value: Value,
) -> bool {
    match value {
        Value::VariableAccess { variable, .. } => held(contents, variable) || (room_for(
            contents,
            locked,
            variable_type(program, variable),
        ) && storage_room(storage, storage_size, variable)),
        Value::Literal(data) => data.spec_base() == NativeBaseType::I32 && first_unused(
            contents,
            locked,
            int_registers(),
        ) is Some,
    }
}

/// `value` can be loaded into `register`: the register can be freed, and
/// the value is a variable held elsewhere or with a place in storage, or a
/// constant going into a primary register.
pub open spec fn can_load_into(
    contents: Seq<RegisterContent>,
    locked: Seq<bool>,
    storage: Map<usize, usize>,
    storage_size: nat,
    program: Program,
    value: Value,
    register: Register,
) -> bool {
    &&& can_prepare(contents, locked, program, register)
    &&& match value {
        Value::VariableAccess { variable, .. } => held(contents, variable) || storage_room(
            storage,
            storage_size,
            variable,
        ),
        Value::Literal(..) => register.spec_namespace() == RegisterNamespace::Primary,
    }
}

/// Register number `i` is empty and not locked.
pub open spec fn is_free(contents: Seq<RegisterContent>, locked: Seq<bool>, i: int) -> bool {
    contents[i] == RegisterContent::Empty && !locked[i]
}

/// How many registers of `list` are empty and not locked.
pub open spec fn free_in(contents: Seq<RegisterContent>, locked: Seq<bool>, list: Seq<Register>) -> nat
    decreases list.len(),
{
    if list.len() == 0 {
        0
    } else {
        (if is_free(contents, locked, list[0].spec_index()) {
            1nat
        } else {
            0nat
        }) + free_in(contents, locked, list.drop_first())
    }
}

/// Enough to carry out an operation: `n` free registers of each kind, and
/// storage room for two more variables.
pub open spec fn has_resources(
    contents: Seq<RegisterContent>,
    locked: Seq<bool>,
    storage_size: nat,
    n: nat,
) -> bool {
    &&& free_in(contents, locked, int_registers()) >= n
    &&& free_in(contents, locked, float_registers()) >= n
    &&& storage_size + 8 <= usize::MAX
}

/// An operand that registers can hold: an integer constant, or a variable
/// that is not a boolean.
pub open spec fn operand_loadable(program: Program, value: Value) -> bool {
    match value {
        Value::Literal(data) => data.spec_base() == NativeBaseType::I32,
        Value::VariableAccess { variable, .. } => variable_type(program, variable)
            != NativeBaseType::B8,
    }
}

/// No register holds a boolean variable.
pub open spec fn no_bool_held(contents: Seq<RegisterContent>, program: Program) -> bool {
    forall|i: int|
        0 <= i < NUM_REGISTERS ==> (#[trigger] contents[i] matches RegisterContent::Variable(v)
            ==> variable_type(program, v) != NativeBaseType::B8)
}

/// From one state of the registers to the next, each kind lost at most
/// one free register.
pub open spec fn loses_at_most_one(
    c1: Seq<RegisterContent>,
    l1: Seq<bool>,
    c2: Seq<RegisterContent>,
    l2: Seq<bool>,
) -> bool {
    &&& free_in(c2, l2, int_registers()) + 1 >= free_in(c1, l1, int_registers())
    &&& free_in(c2, l2, float_registers()) + 1 >= free_in(c1, l1, float_registers())
}

/// From one state of the registers to the next, no kind lost a free
/// register.
pub open spec fn loses_none(
    c1: Seq<RegisterContent>,
    l1: Seq<bool>,
    c2: Seq<RegisterContent>,
    l2: Seq<bool>,
) -> bool {
    &&& free_in(c2, l2, int_registers()) >= free_in(c1, l1, int_registers())
    &&& free_in(c2, l2, float_registers()) >= free_in(c1, l1, float_registers())
}

/// A list with a free register has a first free register.
proof fn lemma_free_in_first_unused(contents: Seq<RegisterContent>, locked: Seq<bool>, list: Seq<Register>)
    requires
        free_in(contents, locked, list) > 0,
    ensures
        first_unused(contents, locked, list) is Some,
    decreases list.len(),
{
    if list.len() > 0 && !is_free(contents, locked, list[0].spec_index()) {
        lemma_free_in_first_unused(contents, locked, list.drop_first());
    }
}

/// Registers of the list that stay free keep the count from falling.
proof fn lemma_free_in_kept(
    c1: Seq<RegisterContent>,
    l1: Seq<bool>,
    c2: Seq<RegisterContent>,
    l2: Seq<bool>,
    list: Seq<Register>,
)
    requires
        forall|k: int|
            0 <= k < list.len() && #[trigger] is_free(c1, l1, list[k].spec_index()) ==> is_free(
                c2,
                l2,
                list[k].spec_index(),
            ),
    ensures
        free_in(c2, l2, list) >= free_in(c1, l1, list),
    decreases list.len(),
{
    if list.len() > 0 {
        assert forall|k: int|
            0 <= k < list.drop_first().len() && #[trigger] is_free(c1, l1, list.drop_first()[k].spec_index())
                implies is_free(c2, l2, list.drop_first()[k].spec_index()) by {
            assert(list.drop_first()[k] == list[k + 1]);
        }
        assert(is_free(c1, l1, list[0].spec_index()) ==> is_free(c2, l2, list[0].spec_index()));
        lemma_free_in_kept(c1, l1, c2, l2, list.drop_first());
    }
}

/// Where at most register number `j` stops being free, the count falls by
/// at most one.
proof fn lemma_free_in_loses_one(
    c1: Seq<RegisterContent>,
    l1: Seq<bool>,
    c2: Seq<RegisterContent>,
    l2: Seq<bool>,
    list: Seq<Register>,
    j: int,
)
    requires
        forall|a: int, b: int|
            0 <= a < b < list.len() ==> #[trigger] list[a].spec_index() != #[trigger] list[b].spec_index(),
        forall|i: int| 0 <= i < NUM_REGISTERS && i != j && #[trigger] is_free(c1, l1, i) ==> is_free(c2, l2, i),
        forall|k: int| 0 <= k < list.len() ==> 0 <= #[trigger] list[k].spec_index() < NUM_REGISTERS,
    ensures
        free_in(c2, l2, list) + 1 >= free_in(c1, l1, list),
    decreases list.len(),
{
    if list.len() > 0 {
        let rest = list.drop_first();
        assert forall|a: int, b: int| 0 <= a < b < rest.len() implies #[trigger] rest[a].spec_index()
            != #[trigger] rest[b].spec_index() by {
            assert(rest[a] == list[a + 1] && rest[b] == list[b + 1]);
        }
        assert forall|k: int| 0 <= k < rest.len() implies 0 <= #[trigger] rest[k].spec_index() < NUM_REGISTERS by {
            assert(rest[k] == list[k + 1]);
        }
        if list[0].spec_index() == j {
            assert forall|k: int|
                0 <= k < rest.len() && #[trigger] is_free(c1, l1, rest[k].spec_index()) implies is_free(
                c2,
                l2,
                rest[k].spec_index(),
            ) by {
                assert(rest[k] == list[k + 1]);
                assert(list[0].spec_index() != list[k + 1].spec_index());
            }
            lemma_free_in_kept(c1, l1, c2, l2, rest);
        } else {
            assert(0 <= list[0].spec_index() < NUM_REGISTERS);
            lemma_free_in_loses_one(c1, l1, c2, l2, rest, j);
        }
    }
}

/// The lists of registers name each register once, and only registers
/// that can hold variables.
proof fn lemma_register_lists()
    ensures
        forall|a: int, b: int|
            0 <= a < b < int_registers().len() ==> #[trigger] int_registers()[a].spec_index()
                != #[trigger] int_registers()[b].spec_index(),
        forall|a: int, b: int|
            0 <= a < b < float_registers().len() ==> #[trigger] float_registers()[a].spec_index()
                != #[trigger] float_registers()[b].spec_index(),
        forall|k: int|
            0 <= k < int_registers().len() ==> is_variable_register(
                #[trigger] int_registers()[k].spec_index(),
            ),
        forall|k: int|
            0 <= k < float_registers().len() ==> is_variable_register(
                #[trigger] float_registers()[k].spec_index(),
            ),
{
    lemma_variable_register_indices();
    assert forall|k: int| 0 <= k < int_registers().len() implies #[trigger] int_registers()[k]
        == variable_registers()[k] by {}
    assert forall|k: int| 0 <= k < float_registers().len() implies #[trigger] float_registers()[k]
        == variable_registers()[k + 7] by {}
}

/// Where at most register number `j` stops being free, each kind loses at
/// most one free register.
proof fn lemma_lose_one(
    c1: Seq<RegisterContent>,
    l1: Seq<bool>,
    c2: Seq<RegisterContent>,
    l2: Seq<bool>,
    j: int,
)
    requires
        forall|i: int| 0 <= i < NUM_REGISTERS && i != j && #[trigger] is_free(c1, l1, i) ==> is_free(c2, l2, i),
    ensures
        free_in(c2, l2, int_registers()) + 1 >= free_in(c1, l1, int_registers()),
        free_in(c2, l2, float_registers()) + 1 >= free_in(c1, l1, float_registers()),
{
    lemma_register_lists();
    lemma_free_in_loses_one(c1, l1, c2, l2, int_registers(), j);
    lemma_free_in_loses_one(c1, l1, c2, l2, float_registers(), j);
}

/// Where no register stops being free, no kind loses a free register.
proof fn lemma_lose_none(
    c1: Seq<RegisterContent>,
    l1: Seq<bool>,
    c2: Seq<RegisterContent>,
    l2: Seq<bool>,
)
    requires
        forall|i: int| 0 <= i < NUM_REGISTERS && #[trigger] is_free(c1, l1, i) ==> is_free(c2, l2, i),
    ensures
        free_in(c2, l2, int_registers()) >= free_in(c1, l1, int_registers()),
        free_in(c2, l2, float_registers()) >= free_in(c1, l1, float_registers()),
{
    lemma_register_lists();
    lemma_free_in_kept(c1, l1, c2, l2, int_registers());
    lemma_free_in_kept(c1, l1, c2, l2, float_registers());
}

/// With a free register of each kind, there is room for any value that is
/// not a boolean.
proof fn lemma_room(contents: Seq<RegisterContent>, locked: Seq<bool>, data_type: NativeBaseType)
    requires
        free_in(contents, locked, int_registers()) > 0,
        free_in(contents, locked, float_registers()) > 0,
        data_type != NativeBaseType::B8,
    ensures
        room_for(contents, locked, data_type),
        first_unused(contents, locked, int_registers()) is Some,
        first_unused(contents, locked, float_registers()) is Some,
{
    lemma_free_in_first_unused(contents, locked, int_registers());
    lemma_free_in_first_unused(contents, locked, float_registers());
}

/// With a free register of each kind and storage room, a loadable operand
/// can be loaded.
proof fn lemma_operand_loadable(
    contents: Seq<RegisterContent>,
    locked: Seq<bool>,
    storage: Map<usize, usize>,
    storage_size: nat,
    program: Program,
    value: Value,
)
    requires
        free_in(contents, locked, int_registers()) > 0,
        free_in(contents, locked, float_registers()) > 0,
        storage_size + 4 <= usize::MAX,
        operand_loadable(program, value),
    ensures
        can_load_any(contents, locked, storage, storage_size, program, value),
{
    match value {
        Value::VariableAccess { variable, .. } => {
            lemma_room(contents, locked, variable_type(program, variable));
        },
        Value::Literal(..) => {
            lemma_room(contents, locked, NativeBaseType::I32);
        },
    }
}

/// A register that holds a loaded operand, or a temporary value, can be
/// freed when there is a free register of each kind.
proof fn lemma_prepare_loaded(
    contents: Seq<RegisterContent>,
    locked: Seq<bool>,
    program: Program,
    register: Register,
    value: Value,
    loaded: RegisterContent,
)
    requires
        free_in(contents, locked, int_registers()) > 0,
        free_in(contents, locked, float_registers()) > 0,
        operand_loadable(program, value),
        match value {
            Value::VariableAccess { variable, .. } => loaded == RegisterContent::Variable(variable),
            Value::Literal(..) => loaded == RegisterContent::Temporary,
        },
        contents[register.spec_index()] == loaded || contents[register.spec_index()]
            == RegisterContent::Temporary,
    ensures
        can_prepare(contents, locked, program, register),
{
    if let RegisterContent::Variable(v) = contents[register.spec_index()] {
        lemma_room(contents, locked, variable_type(program, v));
    }
}

/// Killing variables turns what some registers hold into temporary values,
/// and changes nothing else.
proof fn lemma_kill_all(contents: Seq<RegisterContent>, kills: Seq<VariableId>)
    requires
        contents.len() == NUM_REGISTERS,
    ensures
        kill_all(contents, kills).len() == NUM_REGISTERS,
        forall|i: int|
            0 <= i < NUM_REGISTERS ==> #[trigger] kill_all(contents, kills)[i] == contents[i]
                || (kill_all(contents, kills)[i] == RegisterContent::Temporary && contents[i] is Variable),
    decreases kills.len(),
{
    if kills.len() > 0 {
        lemma_kill_all(contents, kills.drop_last());
    }
}

/// The position in `variable_registers()` of register number `i`.
pub open spec fn variable_register_position(i: int) -> int {
    if i == 1 {
        0
    } else if i == 3 {
        1
    } else if i == 4 {
        2
    } else if i == 6 {
        3
    } else if i == 7 {
        4
    } else if i == 0 {
        5
    } else if i == 2 {
        6
    } else {
        i - 1
    }
}

/// A register is found in a list exactly when one of the list's registers
/// holds the content.
proof fn lemma_first_holding_exists(
    contents: Seq<RegisterContent>,
    list: Seq<Register>,
    content: RegisterContent,
)
    ensures
        first_holding(contents, list, content) is Some <==> exists|j: int|
            0 <= j < list.len() && contents[#[trigger] list[j].spec_index()] == content,
    decreases list.len(),
{
    if list.len() > 0 {
        lemma_first_holding_exists(contents, list.drop_first(), content);
        if exists|j: int| 0 <= j < list.len() && contents[#[trigger] list[j].spec_index()] == content {
            let j = choose|j: int| 0 <= j < list.len() && contents[#[trigger] list[j].spec_index()] == content;
            if j > 0 {
                assert(list.drop_first()[j - 1] == list[j]);
            }
        }
        if exists|j: int| 0 <= j < list.drop_first().len() && contents[#[trigger] list.drop_first()[j].spec_index()] == content {
            let j = choose|j: int| 0 <= j < list.drop_first().len() && contents[#[trigger] list.drop_first()[j].spec_index()] == content;
            assert(list[j + 1] == list.drop_first()[j]);
        }
    }
}

/// A variable is held exactly when a register that can hold variables
/// holds it.
proof fn lemma_held_iff(contents: Seq<RegisterContent>, variable: VariableId)
    ensures
        held(contents, variable) <==> exists|i: int|
            is_variable_register(i) && #[trigger] contents[i] == RegisterContent::Variable(variable),
{
    lemma_variable_register_indices();
    lemma_first_holding_exists(contents, variable_registers(), RegisterContent::Variable(variable));
    if exists|i: int| is_variable_register(i) && #[trigger] contents[i] == RegisterContent::Variable(variable) {
        let i = choose|i: int| is_variable_register(i) && #[trigger] contents[i] == RegisterContent::Variable(variable);
        let j = variable_register_position(i);
        assert(variable_registers()[j].spec_index() == i);
    }
}

/// The code ends with `tail`.
pub open spec fn ends_with(code: Seq<u8>, tail: Seq<u8>) -> bool {
    code.len() >= tail.len() && code.subrange(code.len() - tail.len(), code.len() as int) == tail
}

/// The machine code an arithmetic operation ends with: `result` is the
/// register that receives the result and `other` the one holding the second
/// operand; the float remainder also works in `spare`. Division leaves the
/// quotient in A and the remainder in D, so its code names `other` alone.
pub open spec fn operation_tail(op: BinaryOperator, result: Register, other: Register, spare: Register) -> Seq<u8> {
    match op {
        BinaryOperator::AddI => seq![0x01u8, modrm_two(other, result)],
        BinaryOperator::SubI => seq![0x29u8, modrm_two(other, result)],
        BinaryOperator::MulI => seq![0x0fu8, 0xafu8, modrm_two(result, other)],
        BinaryOperator::DivI => seq![0xF7u8, (0xF8 + other.spec_opcode_index()) as u8],
        BinaryOperator::ModI => seq![0xF7u8, (0xF8 + other.spec_opcode_index()) as u8],
        BinaryOperator::AddF => seq![0xf3u8, 0x0fu8, 0x58u8, modrm_two(result, other)],
        BinaryOperator::SubF => seq![0xf3u8, 0x0fu8, 0x5cu8, modrm_two(result, other)],
        BinaryOperator::MulF => seq![0xf3u8, 0x0fu8, 0x59u8, modrm_two(result, other)],
        BinaryOperator::DivF => seq![0xf3u8, 0x0fu8, 0x5eu8, modrm_two(result, other)],
        BinaryOperator::ModF => seq![0xf3u8, 0x0fu8, 0x5eu8, modrm_two(spare, other)] + seq![
            0x66u8,
            0x0fu8,
            0x3au8,
            0x0au8,
            modrm_two(spare, spare),
            0x03u8,
        ] + seq![0xf3u8, 0x0fu8, 0x59u8, modrm_two(spare, other)] + seq![
            0xf3u8,
            0x0fu8,
            0x5cu8,
            modrm_two(result, spare),
        ],
        _ => seq![],
    }
}

/// Where the operands of an operation were loaded, starting from the
/// registers `contents` and `locks`: the second operand into its load
/// target once the first was loaded; the first into its load target (the
/// register that receives the result, or for the float remainder `spare`),
/// or, for division, into A, with D set to zero.
pub open spec fn operands_placed(
    op: BinaryOperator,
    a: Value,
    b: Value,
    contents: Seq<RegisterContent>,
    locked: Seq<bool>,
    program: Program,
    result: Register,
    other: Register,
    spare: Register,
) -> bool {
    if op is DivI || op is ModI {
        let s1 = after_load_into(contents, locked, program, a, Register::A);
        let s2 = after_load_zero(s1.0, s1.1, program, Register::D);
        load_target(s2.0, s2.1, program, b) == Some(other)
    } else {
        let first = if op is ModF {
            spare
        } else {
            result
        };
        let s1 = after_load_any(contents, locked, program, a);
        &&& load_target(contents, locked, program, a) == Some(first)
        &&& load_target(s1.0, s1.1, program, b) == Some(other)
    }
}

/// An arithmetic operation on two values.
#[derive(Clone, Copy, Debug, PartialEq, Eq, Structural)]
pub enum ArithKind {
    Add,
    Subtract,
    Multiply,
    Divide,
}

/// What a register-to-register x86 instruction computes, as the Intel
/// manual defines it: `Some((dest, kind, left, right))` when the register
/// numbered `dest` receives `left kind right` (registers by their number in
/// the ModR/M byte; only the register-direct form, ModR/M mode 11, is
/// described). ADD r/m32, r32 (01 /r) and SUB r/m32, r32 (29 /r) write
/// `r/m op r` into r/m; IMUL r32, r/m32 (0F AF /r) writes `r * r/m` into r;
/// ADDSS, SUBSS, MULSS, DIVSS xmm, xmm/m32 (F3 0F 58, 5C, 59, 5E /r) write
/// `xmm op xmm/m32` into the first.
pub open spec fn x86_effect(code: Seq<u8>) -> Option<(int, ArithKind, int, int)> {
    if code.len() == 2 && (code[0] == 0x01u8 || code[0] == 0x29u8) && code[1] >= 0xC0 {
        let rm = (code[1] % 8) as int;
        let reg = ((code[1] / 8) % 8) as int;
        Some((rm, if code[0] == 0x01u8 { ArithKind::Add } else { ArithKind::Subtract }, rm, reg))
    } else if code.len() == 3 && code[0] == 0x0fu8 && code[1] == 0xafu8 && code[2] >= 0xC0 {
        let rm = (code[2] % 8) as int;
        let reg = ((code[2] / 8) % 8) as int;
        Some((reg, ArithKind::Multiply, reg, rm))
    } else if code.len() == 4 && code[0] == 0xf3u8 && code[1] == 0x0fu8 && code[3] >= 0xC0 && (
    code[2] == 0x58u8 || code[2] == 0x5cu8 || code[2] == 0x59u8 || code[2] == 0x5eu8) {
        let rm = (code[3] % 8) as int;
        let reg = ((code[3] / 8) % 8) as int;
        let kind = if code[2] == 0x58u8 {
            ArithKind::Add
        } else if code[2] == 0x5cu8 {
            ArithKind::Subtract
        } else if code[2] == 0x59u8 {
            ArithKind::Multiply
        } else {
            ArithKind::Divide
        };
        Some((reg, kind, reg, rm))
    } else {
        None
    }
}

/// The divisor register of `IDIV r/m32` (F7 /7), which divides EDX:EAX,
/// leaving the quotient in EAX and the remainder in EDX.
pub open spec fn x86_idiv_divisor(code: Seq<u8>) -> Option<int> {
    if code.len() == 2 && code[0] == 0xF7u8 && code[1] >= 0xC0 && (code[1] / 8) % 8 == 7 {
        Some((code[1] % 8) as int)
    } else {
        None
    }
}

/// The arithmetic an operator of the specialized program stands for.
pub open spec fn operator_kind(op: BinaryOperator) -> Option<ArithKind> {
    match op {
        BinaryOperator::AddI | BinaryOperator::AddF => Some(ArithKind::Add),
        BinaryOperator::SubI | BinaryOperator::SubF => Some(ArithKind::Subtract),
        BinaryOperator::MulI | BinaryOperator::MulF => Some(ArithKind::Multiply),
        BinaryOperator::DivF => Some(ArithKind::Divide),
        _ => None,
    }
}

/// Law: the machine code of an addition, subtraction, multiplication or
/// float division computes that very operation with the register that
/// received the first operand on the left and the one holding the second
/// operand on the right, and puts the result in the first; integer
/// division and remainder divide by the register holding the second
/// operand.
pub proof fn lemma_operation_code_computes(
    op: BinaryOperator,
    result: Register,
    other: Register,
    spare: Register,
)
    ensures
        operator_kind(op) matches Some(kind) ==> x86_effect(operation_tail(op, result, other, spare))
            == Some((result.spec_opcode_index(), kind, result.spec_opcode_index(), other.spec_opcode_index())),
        op is DivI || op is ModI ==> x86_idiv_divisor(operation_tail(op, result, other, spare)) == Some(
            other.spec_opcode_index(),
        ),
{
    let r = result.spec_opcode_index();
    let o = other.spec_opcode_index();
    assert(0 <= r < 8 && 0 <= o < 8);
    let m1 = modrm_two(other, result);
    let m2 = modrm_two(result, other);
    assert(m1 as int == 0xC0 + 8 * o + r);
    assert(m2 as int == 0xC0 + 8 * r + o);
    assert(m1 % 8 == r && (m1 / 8) % 8 == o) by (nonlinear_arith)
        requires
            m1 as int == 0xC0 + 8 * o + r,
            0 <= r < 8,
            0 <= o < 8,
    ;
    assert(m2 % 8 == o && (m2 / 8) % 8 == r) by (nonlinear_arith)
        requires
            m2 as int == 0xC0 + 8 * r + o,
            0 <= r < 8,
            0 <= o < 8,
    ;
    let d = (0xF8 + o) as u8;
    assert(d as int == 0xF8 + o);
    assert(d % 8 == o && (d / 8) % 8 == 7) by (nonlinear_arith)
        requires
            d as int == 0xF8 + o,
            0 <= o < 8,
    ;
}

/// After the arithmetic operation `x = a op b`, starting from the registers
/// `before` and locks `locks`: its code is last, on the registers its
/// operands were loaded into, and the register that received the result
/// holds the destination variable.
pub open spec fn operation_emitted(
    op: BinaryOperator,
    a: Value,
    b: Value,
    x: Value,
    before: Seq<RegisterContent>,
    locks: Seq<bool>,
    program: Program,
    code: Seq<u8>,
    contents: Seq<RegisterContent>,
) -> bool {
    exists|result: Register, other: Register, spare: Register|
        {
            &&& ends_with(code, #[trigger] operation_tail(op, result, other, spare))
            &&& (op is DivI ==> result == Register::A)
            &&& (op is ModI ==> result == Register::D)
            &&& (x matches Value::VariableAccess { variable, .. } ==> contents[result.spec_index()]
                == RegisterContent::Variable(variable))
            &&& operands_placed(op, a, b, before, locks, program, result, other, spare)
        }
}

/// The assembler's state as plain values: the code so far, what each
/// register holds, which registers are locked, and how much storage is
/// taken.
pub struct AsmState {
    pub code: Seq<u8>,
    pub contents: Seq<RegisterContent>,
    pub locked: Seq<bool>,
    pub storage_size: nat,
}

/// What assembling one instruction did, from state `before` to state
/// `after`: code was only appended; no register is left locked; the
/// destination variable is held by exactly one register; an assertion
/// appended exactly its code; an arithmetic operation ends with its code
/// on the registers its operands were loaded into; a comparison ends with
/// `cmp` of two registers.
pub open spec fn instruction_step(
    before: AsmState,
    after: AsmState,
    instruction: AnnotatedInstruction,
    program: Program,
) -> bool {
    &&& before.code.len() <= after.code.len()
    &&& forall|i: int| 0 <= i < before.code.len() ==> #[trigger] after.code[i] == before.code[i]
    &&& all_unlocked(after.locked)
    &&& (destination(instruction.instruction) matches Some(variable) ==> sole_holder(
        after.contents,
        variable,
    ))
    &&& match instruction.instruction {
        Instruction::Assert(condition) => after.code == before.code + assert_bytes(condition),
        Instruction::BinaryOperation { op, a, b, x } => operation_emitted(
            op,
            a,
            b,
            x,
            before.contents,
            before.locked,
            program,
            after.code,
            after.contents,
        ),
        Instruction::Compare { .. } => exists|first: Register, second: Register|
            ends_with(after.code, seq![0x39u8, #[trigger] modrm_two(first, second)]),
        Instruction::Move { .. } => true,
    }
}

/// The code that stores the registers holding each output to its slot.
pub open spec fn stores_code(
    contents: Seq<RegisterContent>,
    outputs: Seq<VariableId>,
    slots: Seq<(NativeBaseType, usize)>,
) -> Seq<u8>
    decreases outputs.len(),
{
    if outputs.len() == 0 {
        seq![]
    } else {
        stores_code(contents, outputs.drop_last(), slots) + store_code(
            holders(contents, outputs.last(), NUM_REGISTERS as int),
            (slots[outputs.len() - 1].1 as u32) as nat,
        )
    }
}

/// `trace` is the run of the assembler over the first `n` instructions of
/// `program`: it starts after the prologue with every register empty and
/// unlocked, and each instruction takes one state to the next.
pub open spec fn trace_valid(trace: Seq<AsmState>, program: Program, n: int) -> bool {
    &&& 0 <= n <= program.spec_instructions().len()
    &&& trace.len() == n + 1
    &&& trace[0].code == prologue_bytes()
    &&& trace[0].contents.len() == NUM_REGISTERS
    &&& trace[0].locked.len() == NUM_REGISTERS
    &&& forall|i: int|
        0 <= i < NUM_REGISTERS ==> #[trigger] trace[0].contents[i] == RegisterContent::Empty
            && !trace[0].locked[i]
    &&& forall|k: int|
        0 <= k < n ==> #[trigger] instruction_step(
            trace[k],
            trace[k + 1],
            program.spec_instructions()[k],
            program,
        )
}

/// The code of an assembled program: after the run over all instructions,
/// the stores of the outputs and the epilogue.
pub open spec fn code_of_run(p: AssembledProgram, program: Program) -> bool {
    let n = program.spec_instructions().len() as int;
    exists|trace: Seq<AsmState>|
        #[trigger] trace_valid(trace, program, n) && p.code@ == trace[n].code + stores_code(
            trace[n].contents,
            program.spec_outputs(),
            p.outputs@,
        ) + epilogue_bytes()
}

/// Assembling stopped at instruction `k`, reached by a valid run, because
/// it did not fit: too few free registers or too little storage, an
/// operand no register can hold, or an unsupported operator.
pub open spec fn stopped_at_unfit(program: Program) -> bool {
    exists|trace: Seq<AsmState>, k: int|
        #[trigger] trace_valid(trace, program, k) && k < program.spec_instructions().len()
            && !instruction_fits(
            program.spec_instructions()[k].instruction,
            trace[k].contents,
            trace[k].locked,
            trace[k].storage_size,
            program,
        )
}

/// There are enough free registers and storage for the instruction, its
/// operands can be held in registers, and its operator is one the
/// assembler supports.
pub open spec fn instruction_fits(
    instruction: Instruction,
    contents: Seq<RegisterContent>,
    locked: Seq<bool>,
    storage_size: nat,
    program: Program,
) -> bool {
    match instruction {
        Instruction::Move { from, .. } => has_resources(contents, locked, storage_size, 2)
            && operand_loadable(program, from),
        Instruction::BinaryOperation { op, a, b, .. } => {
            &&& (op is AddI || op is SubI || op is MulI || op is DivI || op is ModI || op is AddF
                || op is SubF || op is MulF || op is DivF || op is ModF)
            &&& has_resources(contents, locked, storage_size, 4)
            &&& no_bool_held(contents, program)
            &&& operand_loadable(program, a)
            &&& operand_loadable(program, b)
        },
        Instruction::Compare { a, b } => has_resources(contents, locked, storage_size, 2)
            && operand_loadable(program, a) && operand_loadable(program, b),
        Instruction::Assert(..) => true,
    }
}

/// No register that can hold a variable is locked.
pub open spec fn all_unlocked(locked: Seq<bool>) -> bool {
    forall|i: int| #[trigger] is_variable_register(i) ==> !locked[i]
}

/// Two four-byte slots of storage do not overlap.
pub open spec fn slots_disjoint(a: usize, b: usize) -> bool {
    a + 4 <= b || b + 4 <= a
}

/// The code every program ends with: return 0 to report success.
pub open spec fn epilogue_bytes() -> Seq<u8> {
    seq![0xb8u8] + le_bytes(0, 4) + restore_rsp_bytes() + seq![0xc3u8]
}

/// Machine code and the layout of the storage block it works on. Before
/// the code runs, the storage block's address goes in the 8 bytes at
/// `storage_address_index`.
pub struct AssembledProgram {
    pub code: Vec<u8>,
    pub storage_size: usize,
    pub storage_address_index: usize,
    /// Type and storage address of each input.
    pub inputs: Vec<(NativeBaseType, usize)>,
    /// Type and storage address of each output.
    pub outputs: Vec<(NativeBaseType, usize)>,
}

/// What assembling `source` gives, when it succeeds: code between the
/// prologue and the epilogue, the storage address placed after the
/// prologue's first 12 bytes, and for each input and output its type and a
/// four-byte slot of storage past the saved stack pointer; one variable
/// has one slot, and different variables' slots do not overlap.
pub open spec fn assembled_from(p: AssembledProgram, source: Program) -> bool {
    let n = p.code@.len();
    let slots = p.inputs@ + p.outputs@;
    let ids = source.spec_inputs() + source.spec_outputs();
    &&& n >= 55
    &&& p.code@.subrange(0, 45) == prologue_bytes()
    &&& p.code@.subrange(n - 10, n as int) == epilogue_bytes()
    &&& p.storage_address_index == 12
    &&& p.inputs@.len() == source.spec_inputs().len()
    &&& p.outputs@.len() == source.spec_outputs().len()
    &&& forall|i: int|
        0 <= i < slots.len() ==> (#[trigger] slots[i]).0 == variable_type(source, ids[i]) && 8
            <= slots[i].1 && slots[i].1 + 4 <= p.storage_size
    &&& forall|i: int, j: int|
        0 <= i < slots.len() && 0 <= j < slots.len() ==> (ids[i] == ids[j] <==> #[trigger] slots[i].1
            == #[trigger] slots[j].1) && (ids[i] != ids[j] ==> slots_disjoint(slots[i].1, slots[j].1))
}

/// The assembler's state while it turns a program into machine code.
pub struct Assembler<'a> {
    source: &'a Program,
    target: Vec<u8>,
    /// Data type and address.
    inputs: Vec<(NativeBaseType, usize)>,
    outputs: Vec<(NativeBaseType, usize)>,
    /// What each register holds.
    register_contents: Vec<RegisterContent>,
    /// Whether each register is locked: a locked register is not spilled
    /// or overwritten until it is unlocked.
    register_locked: Vec<bool>,
    /// How much space variable storage takes.
    storage_size: usize,
    /// Where each variable (by number) lives in storage.
    storage_locations: HashMap<usize, usize>,
}

impl<'a> Assembler<'a> {
    /// The state as plain values.
    pub open spec fn state(&self) -> AsmState {
        AsmState {
            code: self.code(),
            contents: self.contents(),
            locked: self.locked(),
            storage_size: self.storage_size(),
        }
    }

    pub closed spec fn code(&self) -> Seq<u8> {
        self.target@
    }

    pub closed spec fn contents(&self) -> Seq<RegisterContent> {
        self.register_contents@
    }

    pub closed spec fn locked(&self) -> Seq<bool> {
        self.register_locked@
    }

    pub closed spec fn storage(&self) -> Map<usize, usize> {
        self.storage_locations@
    }

    pub closed spec fn storage_size(&self) -> nat {
        self.storage_size as nat
    }

    pub closed spec fn program(&self) -> Program {
        *self.source
    }

    pub closed spec fn spec_inputs(&self) -> Seq<(NativeBaseType, usize)> {
        self.inputs@
    }

    pub closed spec fn spec_outputs(&self) -> Seq<(NativeBaseType, usize)> {
        self.outputs@
    }

    /// The registers hold variables of the program, and every variable
    /// with a place in storage has four bytes of its own there.
    pub closed spec fn wf(&self) -> bool {
        &&& self.register_contents@.len() == NUM_REGISTERS
        &&& self.register_locked@.len() == NUM_REGISTERS
        &&& program_in_range(*self.source)
        &&& forall|i: int|
            0 <= i < NUM_REGISTERS ==> (#[trigger] self.register_contents@[i] matches RegisterContent::Variable(v)
                ==> v.0 < self.source.spec_variables().len())
        &&& forall|k: usize|
            #[trigger] self.storage_locations@.contains_key(k) ==> self.storage_locations@[k] + 4
                <= self.storage_size
        &&& forall|k1: usize, k2: usize|
            #![trigger self.storage_locations@[k1], self.storage_locations@[k2]]
            self.storage_locations@.contains_key(k1) && self.storage_locations@.contains_key(k2)
                && k1 != k2 ==> self.storage_locations@[k1] + 4 <= self.storage_locations@[k2]
                || self.storage_locations@[k2] + 4 <= self.storage_locations@[k1]
    }

    /// Only the code changed.
    pub open spec fn only_code_changed(&self, other: &Self) -> bool {
        &&& self.contents() == other.contents()
        &&& self.locked() == other.locked()
        &&& self.storage() == other.storage()
        &&& self.storage_size() == other.storage_size()
        &&& self.program() == other.program()
        &&& self.spec_inputs() == other.spec_inputs()
        &&& self.spec_outputs() == other.spec_outputs()
    }

    /// Neither the registers nor the program changed.
    pub open spec fn registers_kept(&self, other: &Self) -> bool {
        &&& self.contents() == other.contents()
        &&& self.locked() == other.locked()
        &&& self.program() == other.program()
        &&& self.spec_inputs() == other.spec_inputs()
        &&& self.spec_outputs() == other.spec_outputs()
    }

    /// The storage map only gained entries, each placed past the storage
    /// used before, and storage only grew.
    pub open spec fn storage_grew(&self, other: &Self) -> bool {
        &&& forall|k: usize| #[trigger]
            other.storage().contains_key(k) ==> self.storage().contains_key(k) && self.storage()[k]
                == other.storage()[k]
        &&& forall|k: usize| #[trigger]
            self.storage().contains_key(k) && !other.storage().contains_key(k) ==> self.storage()[k]
                >= other.storage_size()
        &&& other.storage_size() <= self.storage_size()
    }

    /// The code so far is a prefix of this state's code.
    pub open spec fn code_extends(&self, other: &Self) -> bool {
        &&& other.code().len() <= self.code().len()
        &&& forall|i: int| 0 <= i < other.code().len() ==> #[trigger] self.code()[i] == other.code()[i]
    }

    /// This state follows from `other` by assembling more: the program and
    /// its inputs and outputs are the same, storage only grew, code was
    /// only appended.
    pub open spec fn extends(&self, other: &Self) -> bool {
        &&& self.wf()
        &&& self.program() == other.program()
        &&& self.spec_inputs() == other.spec_inputs()
        &&& self.spec_outputs() == other.spec_outputs()
        &&& self.storage_grew(other)
        &&& self.code_extends(other)
    }

    /// Locked registers keep their contents, and stay locked.
    pub open spec fn locked_kept(&self, other: &Self) -> bool {
        forall|i: int|
            0 <= i < NUM_REGISTERS && #[trigger] other.locked()[i] ==> self.locked()[i]
                && self.contents()[i] == other.contents()[i]
    }

    pub fn new(source: &'a Program) -> (r: Self)
        requires
            program_in_range(*source),
        ensures
            r.wf(),
            r.program() == *source,
            r.code().len() == 0,
            r.spec_inputs().len() == 0,
            r.spec_outputs().len() == 0,
            r.contents() == Seq::new(NUM_REGISTERS as nat, |i: int| RegisterContent::Empty),
            r.locked() == Seq::new(NUM_REGISTERS as nat, |i: int| false),
            r.storage_size() == 0,
            r.storage() == Map::<usize, usize>::empty(),
    {
        let mut register_contents: Vec<RegisterContent> = Vec::new();
        let mut register_locked: Vec<bool> = Vec::new();
        let mut i: usize = 0;
        while i < NUM_REGISTERS
            invariant
                i <= NUM_REGISTERS,
                register_contents@ == Seq::new(i as nat, |j: int| RegisterContent::Empty),
                register_locked@ == Seq::new(i as nat, |j: int| false),
            decreases NUM_REGISTERS - i,
        {
            register_contents.push(RegisterContent::Empty);
            register_locked.push(false);
            i = i + 1;
        }
        Assembler {
            source,
            target: Vec::new(),
            inputs: Vec::new(),
            outputs: Vec::new(),
            register_contents,
            register_locked,
            storage_size: 0,
            storage_locations: HashMap::new(),
        }
    }

    fn write_byte(&mut self, byte: u8)
        ensures
            final(self).code() == old(self).code().push(byte),
            final(self).only_code_changed(old(self)),
            final(self).wf() == old(self).wf(),
    {
        self.target.push(byte);
    }

    fn write_bytes(&mut self, bytes: &[u8])
        ensures
            final(self).code() == old(self).code() + bytes@,
            final(self).only_code_changed(old(self)),
            final(self).wf() == old(self).wf(),
    {
        let mut i: usize = 0;
        while i < bytes.len()
            invariant
                i <= bytes@.len(),
                self.code() == old(self).code() + bytes@.take(i as int),
                self.only_code_changed(old(self)),
                self.wf() == old(self).wf(),
            decreases bytes@.len() - i,
        {
            self.write_byte(bytes[i]);
            i = i + 1;
            assert(old(self).code() + bytes@.take(i as int) =~= (old(self).code() + bytes@.take(
                i - 1,
            )).push(bytes@[i - 1]));
        }
        assert(bytes@.take(bytes@.len() as int) =~= bytes@);
    }

    /// The ModR/M byte for two registers: 0b11 marks register operands.
    fn write_modrm_two_register(&mut self, first: Register, second: Register)
        ensures
            final(self).code() == old(self).code().push(modrm_two(first, second)),
            final(self).only_code_changed(old(self)),
            final(self).wf() == old(self).wf(),
    {
        let a = first.opcode_index_u8();
        let b = second.opcode_index_u8();
        assert(0xC0u8 | a << 3u8 | b == 0xC0 + 8 * a + b) by (bit_vector)
            requires
                a < 8,
                b < 8,
        ;
        self.write_byte(0b11000000 | a << 3 | b);
    }

    /// The ModR/M byte for a register and `[StorageAddress + disp32]`: mode
    /// 0b10 with 0b101 as the base.
    fn write_modrm_reg_disp32(&mut self, register: Register)
        ensures
            final(self).code() == old(self).code().push(modrm_disp32(register)),
            final(self).only_code_changed(old(self)),
            final(self).wf() == old(self).wf(),
    {
        let a = register.opcode_index_u8();
        assert(0x85u8 | a << 3u8 == 0x85 + 8 * a) by (bit_vector)
            requires
                a < 8,
        ;
        self.write_byte(0b10000101 | a << 3);
    }

    /// The eight bytes of `value`, lowest first, as x86 orders them.
    fn write_64(&mut self, value: u64)
        ensures
            final(self).code() == old(self).code() + le_bytes(value as nat, 8),
            final(self).only_code_changed(old(self)),
            final(self).wf() == old(self).wf(),
    {
        push_le_bytes(&mut self.target, value, 8);
    }

    /// The four bytes of `value`, lowest first, as x86 orders them.
    fn write_32(&mut self, value: u32)
        ensures
            final(self).code() == old(self).code() + le_bytes(value as nat, 4),
            final(self).only_code_changed(old(self)),
            final(self).wf() == old(self).wf(),
    {
        push_le_bytes(&mut self.target, value as u64, 4);
    }

    /// A short conditional jump over `displacement` bytes.
    fn write_jmp_cond_disp8(&mut self, condition_code: u8, displacement: u8)
        ensures
            final(self).code() == old(self).code() + seq![
                (0x70 + condition_code % 16) as u8,
                displacement,
            ],
            final(self).only_code_changed(old(self)),
            final(self).wf() == old(self).wf(),
    {
        assert(0x70u8 | condition_code & 0x0Fu8 == 0x70 + condition_code % 16) by (bit_vector);
        self.write_byte(0x70 | condition_code & 0x0F);
        self.write_byte(displacement);
        assert(old(self).code() + seq![(0x70 + condition_code % 16) as u8, displacement]
            =~= old(self).code().push((0x70 + condition_code % 16) as u8).push(displacement));
    }

    /// Restores the stack pointer to the value saved before the start of the
    /// function. This must be done before returning.
    fn write_restore_rsp(&mut self)
        ensures
            final(self).code() == old(self).code() + restore_rsp_bytes(),
            final(self).only_code_changed(old(self)),
            final(self).wf() == old(self).wf(),
    {
        self.write_bytes(&[0x48, 0x8b, 0x65, 0x00]);
        assert(restore_rsp_bytes() =~= seq![0x48u8, 0x8bu8, 0x65u8, 0x00u8]);
    }

    fn write_ret(&mut self)
        ensures
            final(self).code() == old(self).code().push(0xc3),
            final(self).only_code_changed(old(self)),
            final(self).wf() == old(self).wf(),
    {
        self.write_byte(0xc3);
    }

    fn write_restore_rsp_and_return(&mut self)
        ensures
            final(self).code() == old(self).code() + restore_rsp_bytes().push(0xc3),
            final(self).only_code_changed(old(self)),
            final(self).wf() == old(self).wf(),
    {
        self.write_restore_rsp();
        self.write_ret();
        assert(old(self).code() + restore_rsp_bytes().push(0xc3) =~= (old(self).code()
            + restore_rsp_bytes()).push(0xc3));
    }

    /// The address of `variable` relative to the start of storage: the one
    /// it was given before, or the next four free bytes.
    fn get_variable_address(&mut self, variable: VariableId) -> (r: Result<usize, AssemblyError>)
        requires
            old(self).wf(),
        ensures
            old(self).storage().contains_key(variable.0) ==> r == Ok::<usize, AssemblyError>(
                old(self).storage()[variable.0],
            ) && *final(self) == *old(self),
            !old(self).storage().contains_key(variable.0) && old(self).storage_size() + 4
                <= usize::MAX ==> r == Ok::<usize, AssemblyError>(old(self).storage_size() as usize)
                && final(self).storage() == old(self).storage().insert(
                variable.0,
                old(self).storage_size() as usize,
            ) && final(self).storage_size() == old(self).storage_size() + 4,
            !old(self).storage().contains_key(variable.0) && old(self).storage_size() + 4
                > usize::MAX ==> r == Err::<usize, AssemblyError>(AssemblyError::StorageFull),
            final(self).storage_size() <= old(self).storage_size() + 4,
            final(self).wf(),
            final(self).code() == old(self).code(),
            final(self).registers_kept(old(self)),
            final(self).storage_grew(old(self)),
    {
        match self.storage_locations.get(&variable.0) {
            Some(address) => Ok(*address),
            None => {
                if self.storage_size > usize::MAX - 4 {
                    return Err(AssemblyError::StorageFull);
                }
                let address = self.storage_size;
                self.storage_size = self.storage_size + 4;
                self.storage_locations.insert(variable.0, address);
                Ok(address)
            },
        }
    }

    /// Loads a variable from storage into a register.
    fn write_mov_var32_to_register(&mut self, register: Register, variable: VariableId) -> (r:
        Result<(), AssemblyError>)
        requires
            old(self).wf(),
        ensures
            final(self).wf(),
            final(self).registers_kept(old(self)),
            final(self).storage_grew(old(self)),
            r is Ok ==> final(self).storage().contains_key(variable.0) && final(self).code() == old(self).code() + load_opcode(register.spec_namespace()).push(modrm_disp32(register))
                + le_bytes((final(self).storage()[variable.0] as u32) as nat, 4),
            r is Err ==> r == Err::<(), AssemblyError>(AssemblyError::StorageFull) && final(self).code()
                == old(self).code(),
            r is Ok <==> storage_room(old(self).storage(), old(self).storage_size(), variable),
            final(self).storage_size() <= old(self).storage_size() + 4,
    {
        let var_address = self.get_variable_address(variable)?;
        let ghost before = self.code();
        match register.get_namespace() {
            RegisterNamespace::Primary => self.write_byte(0x8b),
            RegisterNamespace::XMM => self.write_bytes(&[0xf3, 0x0f, 0x10]),
        }
        self.write_modrm_reg_disp32(register);
        self.write_32(var_address as u32);
        assert(self.code() =~= before + load_opcode(register.spec_namespace()).push(
            modrm_disp32(register),
        ) + le_bytes((var_address as u32) as nat, 4));
        Ok(())
    }

    /// Loads a 32-bit immediate into a register. XMM registers cannot be
    /// loaded with an immediate.
    fn write_mov_imm32_to_register(&mut self, register: Register, imm32: u32) -> (r: Result<
        (),
        AssemblyError,
    >)
        ensures
            r is Ok <==> register.spec_namespace() == RegisterNamespace::Primary,
            r is Err ==> r == Err::<(), AssemblyError>(AssemblyError::XmmImmediate) && *final(self)
                == *old(self),
            r is Ok ==> final(self).code() == old(self).code().push(
                (0xb8 + register.spec_opcode_index()) as u8,
            ) + le_bytes(imm32 as nat, 4),
            final(self).only_code_changed(old(self)),
            final(self).wf() == old(self).wf(),
    {
        match register.get_namespace() {
            RegisterNamespace::Primary => {
                self.write_byte(0xb8 + register.opcode_index_u8());
                self.write_32(imm32);
                Ok(())
            },
            RegisterNamespace::XMM => Err(AssemblyError::XmmImmediate),
        }
    }

    /// Stores a register into a variable's place in storage.
    fn write_mov_register_to_var32(&mut self, register: Register, variable: VariableId) -> (r:
        Result<(), AssemblyError>)
        requires
            old(self).wf(),
        ensures
            final(self).wf(),
            final(self).registers_kept(old(self)),
            final(self).storage_grew(old(self)),
            r is Ok ==> final(self).storage().contains_key(variable.0) && final(self).code() == old(self).code() + store_opcode(register.spec_namespace()).push(modrm_disp32(register))
                + le_bytes((final(self).storage()[variable.0] as u32) as nat, 4),
            r is Err ==> r == Err::<(), AssemblyError>(AssemblyError::StorageFull) && final(self).code()
                == old(self).code(),
            r is Ok <==> storage_room(old(self).storage(), old(self).storage_size(), variable),
            final(self).storage_size() <= old(self).storage_size() + 4,
    {
        let var_address = self.get_variable_address(variable)?;
        let ghost before = self.code();
        match register.get_namespace() {
            RegisterNamespace::Primary => self.write_byte(0x89),
            RegisterNamespace::XMM => self.write_bytes(&[0xf3, 0x0f, 0x11]),
        }
        self.write_modrm_reg_disp32(register);
        self.write_32(var_address as u32);
        assert(self.code() =~= before + store_opcode(register.spec_namespace()).push(
            modrm_disp32(register),
        ) + le_bytes((var_address as u32) as nat, 4));
        Ok(())
    }

    /// Copies one register into another of the same namespace.
    fn write_mov_reg32_to_reg32(&mut self, from: Register, to: Register)
        ensures
            final(self).code() == old(self).code() + store_opcode(from.spec_namespace()).push(
                modrm_two(from, to),
            ),
            final(self).only_code_changed(old(self)),
            final(self).wf() == old(self).wf(),
    {
        let ghost before = self.code();
        match from.get_namespace() {
            RegisterNamespace::Primary => self.write_byte(0x89),
            RegisterNamespace::XMM => self.write_bytes(&[0xf3, 0x0f, 0x11]),
        }
        self.write_modrm_two_register(from, to);
        assert(self.code() =~= before + store_opcode(from.spec_namespace()).push(
            modrm_two(from, to),
        ));
    }

    /// Writes the code every program starts with (see `prologue_bytes`) and
    /// reserves the first eight bytes of storage for the stack pointer.
    /// Returns where in the code the storage block's address goes.
    fn write_prologue(&mut self) -> (r: usize)
        requires
            old(self).wf(),
            old(self).storage_size() + 8 <= usize::MAX,
        ensures
            final(self).wf(),
            final(self).code() == old(self).code() + prologue_bytes(),
            r == old(self).code().len() + 12,
            final(self).storage_size() == old(self).storage_size() + 8,
            final(self).storage() == old(self).storage(),
            final(self).registers_kept(old(self)),
    {
        let ghost start = self.code();
        // Push callee-saved registers to stack.
        self.write_bytes(&[0x53, 0x55, 0x41, 0x54, 0x41, 0x55, 0x41, 0x56, 0x41, 0x57]);
        // mov rbp imm64; the imm64 is overwritten with the storage block's
        // address once it is known.
        self.write_byte(0x48);
        self.write_byte(0xbd);
        let storage_address_index = self.target.len();
        self.write_64(0);
        // Space to save rsp in.
        self.storage_size = self.storage_size + 8;
        // mov [rbp] rsp, so that the stack can be restored when the function
        // returns.
        self.write_bytes(&[0x48, 0x89, 0x65, 0x00]);
        // sub qword ptr [rbp] 0x08, because the following call pushes an
        // 8-byte value to the stack.
        self.write_bytes(&[0x48, 0x83, 0x6d, 0x00, 0x08]);
        // call disp32 to the body of the function.
        self.write_byte(0xe8);
        self.write_32(11);
        // Cleanup, 11 bytes: rsp is already restored, since ret needs it;
        // pop the callee-saved registers and return.
        self.write_bytes(&[0x41, 0x5f, 0x41, 0x5e, 0x41, 0x5d, 0x41, 0x5c, 0x5d, 0x5b]);
        self.write_ret();
        assert(self.code() =~= start + prologue_bytes());
        storage_address_index
    }

    fn meta_find_register_from_list_containing(
        &self,
        list: &[Register],
        contents: RegisterContent,
    ) -> (r: Option<Register>)
        requires
            self.wf(),
        ensures
            r == first_holding(self.contents(), list@, contents),
    {
        let mut i: usize = 0;
        assert(list@.skip(0) =~= list@);
        while i < list.len()
            invariant
                i <= list@.len(),
                self.wf(),
                first_holding(self.contents(), list@.skip(i as int), contents) == first_holding(
                    self.contents(),
                    list@,
                    contents,
                ),
            decreases list@.len() - i,
        {
            let register = list[i];
            assert(list@.skip(i as int).drop_first() =~= list@.skip(i + 1));
            if self.register_contents[register.index()] == contents {
                return Some(register);
            }
            i = i + 1;
        }
        None
    }

    fn meta_find_register_containing(&self, contents: RegisterContent) -> (r: Option<Register>)
        requires
            self.wf(),
        ensures
            r == first_holding(self.contents(), variable_registers(), contents),
    {
        let list = variable_register_list();
        self.meta_find_register_from_list_containing(&list, contents)
    }

    /// The first register in the list which is not locked and is empty.
    fn meta_find_unused_register_from_list(&self, list: &[Register]) -> (r: Option<Register>)
        requires
            self.wf(),
        ensures
            r == first_unused(self.contents(), self.locked(), list@),
    {
        let mut i: usize = 0;
        assert(list@.skip(0) =~= list@);
        while i < list.len()
            invariant
                i <= list@.len(),
                self.wf(),
                first_unused(self.contents(), self.locked(), list@.skip(i as int)) == first_unused(
                    self.contents(),
                    self.locked(),
                    list@,
                ),
            decreases list@.len() - i,
        {
            let register = list[i];
            assert(list@.skip(i as int).drop_first() =~= list@.skip(i + 1));
            if self.register_contents[register.index()] == RegisterContent::Empty
                && !self.register_locked[register.index()] {
                return Some(register);
            }
            i = i + 1;
        }
        None
    }

    fn meta_find_unused_int_register(&self) -> (r: Option<Register>)
        requires
            self.wf(),
        ensures
            r == first_unused(self.contents(), self.locked(), int_registers()),
    {
        let list = int_register_list();
        self.meta_find_unused_register_from_list(&list)
    }

    fn meta_find_unused_float_register(&self) -> (r: Option<Register>)
        requires
            self.wf(),
        ensures
            r == first_unused(self.contents(), self.locked(), float_registers()),
    {
        let list = float_register_list();
        self.meta_find_unused_register_from_list(&list)
    }

    /// Locks the register so that other helpers leave it alone until it is
    /// unlocked. Locking a locked register changes nothing.
    fn meta_lock_register(&mut self, register: Register)
        requires
            old(self).wf(),
        ensures
            final(self).wf(),
            final(self).locked() == old(self).locked().update(register.spec_index(), true),
            final(self).contents() == old(self).contents(),
            final(self).code() == old(self).code(),
            final(self).storage() == old(self).storage(),
            final(self).storage_size() == old(self).storage_size(),
            final(self).program() == old(self).program(),
            final(self).spec_inputs() == old(self).spec_inputs(),
            final(self).spec_outputs() == old(self).spec_outputs(),
    {
        self.register_locked.set(register.index(), true);
    }

    /// Unlocks the register. A temporary value in it is forgotten.
    fn meta_unlock_register(&mut self, register: Register)
        requires
            old(self).wf(),
        ensures
            final(self).wf(),
            final(self).locked() == old(self).locked().update(register.spec_index(), false),
            final(self).contents() == if old(self).contents()[register.spec_index()]
                == RegisterContent::Temporary {
                old(self).contents().update(register.spec_index(), RegisterContent::Empty)
            } else {
                old(self).contents()
            },
            final(self).code() == old(self).code(),
            final(self).storage() == old(self).storage(),
            final(self).storage_size() == old(self).storage_size(),
            final(self).program() == old(self).program(),
            final(self).spec_inputs() == old(self).spec_inputs(),
            final(self).spec_outputs() == old(self).spec_outputs(),
    {
        let index = register.index();
        self.register_locked.set(index, false);
        if self.register_contents[index] == RegisterContent::Temporary {
            self.register_contents.set(index, RegisterContent::Empty);
        }
    }

    /// Unlocks every locked register that can hold a variable.
    fn meta_unlock_registers(&mut self)
        requires
            old(self).wf(),
        ensures
            final(self).wf(),
            forall|i: int|
                0 <= i < NUM_REGISTERS ==> #[trigger] final(self).locked()[i] == (!is_variable_register(i)
                    && old(self).locked()[i]),
            forall|i: int|
                0 <= i < NUM_REGISTERS ==> #[trigger] final(self).contents()[i] == if is_variable_register(i)
                    && old(self).locked()[i] && old(self).contents()[i] == RegisterContent::Temporary {
                    RegisterContent::Empty
                } else {
                    old(self).contents()[i]
                },
            final(self).code() == old(self).code(),
            final(self).storage() == old(self).storage(),
            final(self).storage_size() == old(self).storage_size(),
            final(self).program() == old(self).program(),
            final(self).spec_inputs() == old(self).spec_inputs(),
            final(self).spec_outputs() == old(self).spec_outputs(),
    {
        let list = variable_register_list();
        let mut k: usize = 0;
        while k < 15
            invariant
                k <= 15,
                list@ == variable_registers(),
                self.wf(),
                forall|i: int|
                    0 <= i < NUM_REGISTERS ==> #[trigger] self.locked()[i] == if covered(
                        list@,
                        k as int,
                        i,
                    ) {
                        false
                    } else {
                        old(self).locked()[i]
                    },
                forall|i: int|
                    0 <= i < NUM_REGISTERS ==> #[trigger] self.contents()[i] == if covered(
                        list@,
                        k as int,
                        i,
                    ) && old(self).locked()[i] && old(self).contents()[i]
                        == RegisterContent::Temporary {
                        RegisterContent::Empty
                    } else {
                        old(self).contents()[i]
                    },
                self.code() == old(self).code(),
                self.storage() == old(self).storage(),
                self.storage_size() == old(self).storage_size(),
                self.program() == old(self).program(),
                self.spec_inputs() == old(self).spec_inputs(),
                self.spec_outputs() == old(self).spec_outputs(),
            decreases 15 - k,
        {
            let register = list[k];
            proof {
                lemma_variable_register_indices();
                if covered(list@, k as int, register.spec_index()) {
                    let j = choose|j: int|
                        0 <= j < k && #[trigger] list@[j].spec_index() == register.spec_index();
                    assert(false);
                }
                assert(self.locked()[register.spec_index()] == old(self).locked()[register.spec_index()]);
                assert(self.contents()[register.spec_index()] == old(self).contents()[register.spec_index()]);
            }
            let ghost prev = self.contents();
            if self.register_locked[register.index()] {
                self.meta_unlock_register(register);
            }
            assert(self.contents() == prev || (old(self).locked()[register.spec_index()] && self.contents() == if prev[register.spec_index()] == RegisterContent::Temporary {
                prev.update(register.spec_index(), RegisterContent::Empty)
            } else {
                prev
            }));
            k = k + 1;
            assert forall|i: int| 0 <= i < NUM_REGISTERS implies #[trigger] covered(list@, k as int, i)
                == (covered(list@, k - 1, i) || register.spec_index() == i) by {
                if register.spec_index() == i {
                    assert(list@[k - 1].spec_index() == i);
                }
                if covered(list@, k as int, i) && register.spec_index() != i {
                    let j = choose|j: int| 0 <= j < k && #[trigger] list@[j].spec_index() == i;
                    assert(j < k - 1);
                }
            }
        }
        assert forall|i: int| 0 <= i < NUM_REGISTERS implies #[trigger] covered(list@, 15, i)
            == is_variable_register(i) by {
            if is_variable_register(i) {
                if i == 0 { assert(list@[5].spec_index() == i); }
                else if i == 1 { assert(list@[0].spec_index() == i); }
                else if i == 2 { assert(list@[6].spec_index() == i); }
                else if i == 3 { assert(list@[1].spec_index() == i); }
                else if i == 4 { assert(list@[2].spec_index() == i); }
                else if i == 6 { assert(list@[3].spec_index() == i); }
                else if i == 7 { assert(list@[4].spec_index() == i); }
                else { assert(list@[i - 1].spec_index() == i); }
            }
        }
    }

    /// Finds the register where each killed variable lives and marks it as
    /// holding a temporary value, so that the register can be reused once
    /// it is unlocked.
    fn meta_kill_variables(&mut self, kills: &[VariableId])
        requires
            old(self).wf(),
        ensures
            final(self).wf(),
            final(self).contents() == kill_all(old(self).contents(), kills@),
            loses_none(old(self).contents(), old(self).locked(), final(self).contents(), final(self).locked()),
            final(self).locked() == old(self).locked(),
            final(self).code() == old(self).code(),
            final(self).storage() == old(self).storage(),
            final(self).storage_size() == old(self).storage_size(),
            final(self).program() == old(self).program(),
            final(self).spec_inputs() == old(self).spec_inputs(),
            final(self).spec_outputs() == old(self).spec_outputs(),
    {
        let mut k: usize = 0;
        while k < kills.len()
            invariant
                k <= kills@.len(),
                self.wf(),
                self.contents() == kill_all(old(self).contents(), kills@.take(k as int)),
                self.locked() == old(self).locked(),
                self.code() == old(self).code(),
                self.storage() == old(self).storage(),
                self.storage_size() == old(self).storage_size(),
                self.program() == old(self).program(),
                self.spec_inputs() == old(self).spec_inputs(),
                self.spec_outputs() == old(self).spec_outputs(),
            decreases kills@.len() - k,
        {
            let kill = kills[k];
            assert(kills@.take(k + 1).drop_last() =~= kills@.take(k as int));
            let ghost before = self.contents();
            let mut index: usize = 0;
            while index < NUM_REGISTERS
                invariant
                    index <= NUM_REGISTERS,
                    k < kills@.len(),
                    kill == kills@[k as int],
                    before == kill_all(old(self).contents(), kills@.take(k as int)),
                    self.wf(),
                    self.contents().len() == NUM_REGISTERS,
                    before.len() == NUM_REGISTERS,
                    forall|i: int|
                        0 <= i < NUM_REGISTERS ==> #[trigger] self.contents()[i] == if i < index {
                            kill_one(before, kill)[i]
                        } else {
                            before[i]
                        },
                    self.locked() == old(self).locked(),
                    self.code() == old(self).code(),
                    self.storage() == old(self).storage(),
                    self.storage_size() == old(self).storage_size(),
                    self.program() == old(self).program(),
                    self.spec_inputs() == old(self).spec_inputs(),
                    self.spec_outputs() == old(self).spec_outputs(),
                decreases NUM_REGISTERS - index,
            {
                let ghost current = self.contents();
                assert(current[index as int] == before[index as int]);
                if index != 5 && self.register_contents[index] == RegisterContent::Variable(kill) {
                    self.register_contents.set(index, RegisterContent::Temporary);
                }
                assert(self.contents()[index as int] == kill_one(before, kill)[index as int]);
                assert(forall|i: int| 0 <= i < NUM_REGISTERS && i != index ==> self.contents()[i] == current[i]);
                index = index + 1;
            }
            assert(self.contents() =~= kill_one(before, kill));
            k = k + 1;
        }
        assert(kills@.take(kills@.len() as int) =~= kills@);
        proof {
            lemma_kill_all(old(self).contents(), kills@);
            lemma_lose_none(old(self).contents(), old(self).locked(), self.contents(), self.locked());
        }
    }

    /// A register that can hold `data_type` and can be written without
    /// losing anything needed later: the first unused one of its kind.
    fn prepare_any_register_for(&self, data_type: NativeBaseType) -> (r: Result<
        Register,
        AssemblyError,
    >)
        requires
            self.wf(),
        ensures
            data_type == NativeBaseType::I32 ==> r == match first_unused(
                self.contents(),
                self.locked(),
                int_registers(),
            ) {
                Some(register) => Ok::<Register, AssemblyError>(register),
                None => Err(AssemblyError::OutOfRegisters),
            },
            data_type == NativeBaseType::F32 ==> r == match first_unused(
                self.contents(),
                self.locked(),
                float_registers(),
            ) {
                Some(register) => Ok::<Register, AssemblyError>(register),
                None => Err(AssemblyError::OutOfRegisters),
            },
            data_type == NativeBaseType::B8 ==> r == Err::<Register, AssemblyError>(
                AssemblyError::UnsupportedType,
            ),
            r matches Ok(register) ==> {
                &&& self.contents()[register.spec_index()] == RegisterContent::Empty
                &&& !self.locked()[register.spec_index()]
                &&& is_variable_register(register.spec_index())
                &&& register.spec_namespace().spec_compatible(data_type)
            },
    {
        proof {
            lemma_first_unused_in_list(self.contents(), self.locked(), int_registers());
            lemma_first_unused_in_list(self.contents(), self.locked(), float_registers());
            lemma_variable_register_indices();
            assert(int_registers() =~= variable_registers().take(7));
            assert(float_registers() =~= variable_registers().skip(7));
        }
        match data_type {
            NativeBaseType::I32 => match self.meta_find_unused_int_register() {
                Some(register) => Ok(register),
                None => Err(AssemblyError::OutOfRegisters),
            },
            NativeBaseType::F32 => match self.meta_find_unused_float_register() {
                Some(register) => Ok(register),
                None => Err(AssemblyError::OutOfRegisters),
            },
            NativeBaseType::B8 => Err(AssemblyError::UnsupportedType),
        }
    }

    /// Makes sure the register can be written without erasing data needed
    /// later: a variable in it is moved to a free register of its kind, a
    /// temporary value is forgotten. Meant for a register that one
    /// instruction reads and then writes.
    fn prepare_locked_register(&mut self, register: Register) -> (r: Result<(), AssemblyError>)
        requires
            old(self).wf(),
            is_variable_register(register.spec_index()),
        ensures
            final(self).extends(old(self)),
            final(self).locked() == old(self).locked(),
            final(self).storage() == old(self).storage(),
            final(self).storage_size() == old(self).storage_size(),
            r is Ok <==> can_prepare(old(self).contents(), old(self).locked(), old(self).program(), register),
            r is Err ==> old(self).contents()[register.spec_index()] is Variable,
            forall|i: int|
                0 <= i < NUM_REGISTERS && i != register.spec_index() && #[trigger] old(self).locked()[i]
                    ==> final(self).contents()[i] == old(self).contents()[i],
            r is Ok ==> final(self).contents()[register.spec_index()] == RegisterContent::Empty,
            r is Ok && !(old(self).contents()[register.spec_index()] is Variable) ==> final(self).contents() == old(self).contents().update(
                register.spec_index(),
                RegisterContent::Empty,
            ) && final(self).code() == old(self).code(),
            r is Ok && old(self).contents()[register.spec_index()] is Variable ==> exists|w: Register|
                {
                    &&& is_variable_register(w.spec_index())
                    &&& w != register
                    &&& old(self).contents()[w.spec_index()] == RegisterContent::Empty
                    &&& !old(self).locked()[w.spec_index()]
                    &&& final(self).contents() == old(self).contents().update(
                        w.spec_index(),
                        old(self).contents()[register.spec_index()],
                    ).update(register.spec_index(), RegisterContent::Empty)
                    &&& final(self).code() == old(self).code() + store_opcode(
                        register.spec_namespace(),
                    ).push(modrm_two(register, w))
                },
            r is Ok ==> loses_at_most_one(
                old(self).contents(),
                old(self).locked(),
                final(self).contents(),
                final(self).locked(),
            ),
            r is Ok ==> final(self).code() == old(self).code() + spill_code(
                old(self).contents(),
                old(self).locked(),
                old(self).program(),
                register,
            ),
            r is Ok && old(self).contents()[register.spec_index()] is Variable ==> (spill_target(
                old(self).contents(),
                old(self).locked(),
                old(self).program(),
                register,
            ) matches Some(w) && final(self).contents() == old(self).contents().update(
                w.spec_index(),
                old(self).contents()[register.spec_index()],
            ).update(register.spec_index(), RegisterContent::Empty)),
            r is Ok ==> final(self).contents() == spilled(
                old(self).contents(),
                old(self).locked(),
                old(self).program(),
                register,
            ),
    {
        let index = register.index();
        match self.register_contents[index] {
            RegisterContent::Variable(id) => {
                let data_type = self.source.borrow_variable(id).typ.base;
                let write_into = self.prepare_any_register_for(data_type)?;
                self.write_mov_reg32_to_reg32(register, write_into);
                self.register_contents.set(write_into.index(), RegisterContent::Variable(id));
                self.register_contents.set(index, RegisterContent::Empty);
                proof {
                    lemma_lose_one(
                        old(self).contents(),
                        old(self).locked(),
                        self.contents(),
                        self.locked(),
                        write_into.spec_index(),
                    );
                }
                Ok(())
            },
            RegisterContent::Temporary => {
                self.register_contents.set(index, RegisterContent::Empty);
                proof {
                    lemma_lose_none(old(self).contents(), old(self).locked(), self.contents(), self.locked());
                }
                Ok(())
            },
            RegisterContent::Empty => {
                assert(old(self).contents().update(index as int, RegisterContent::Empty) =~= old(self).contents());
                proof {
                    lemma_lose_none(old(self).contents(), old(self).locked(), self.contents(), self.locked());
                }
                Ok(())
            },
        }
    }

    /// Like `prepare_locked_register`, for a register that is not locked.
    fn prepare_register(&mut self, register: Register) -> (r: Result<(), AssemblyError>)
        requires
            old(self).wf(),
            is_variable_register(register.spec_index()),
            !old(self).locked()[register.spec_index()],
        ensures
            final(self).extends(old(self)),
            final(self).locked() == old(self).locked(),
            final(self).locked_kept(old(self)),
            final(self).storage() == old(self).storage(),
            final(self).storage_size() == old(self).storage_size(),
            r is Ok <==> can_prepare(old(self).contents(), old(self).locked(), old(self).program(), register),
            r is Err ==> old(self).contents()[register.spec_index()] is Variable,
            r is Ok ==> final(self).contents()[register.spec_index()] == RegisterContent::Empty,
            r is Ok ==> exists|w: Register|
                {
                    &&& is_variable_register(w.spec_index())
                    &&& ((w == register && !(old(self).contents()[register.spec_index()] is Variable))
                        || (w != register && old(self).contents()[w.spec_index()] == RegisterContent::Empty
                        && !old(self).locked()[w.spec_index()]))
                    &&& final(self).contents() == old(self).contents().update(
                        w.spec_index(),
                        old(self).contents()[register.spec_index()],
                    ).update(register.spec_index(), RegisterContent::Empty)
                },
            r is Ok ==> loses_at_most_one(
                old(self).contents(),
                old(self).locked(),
                final(self).contents(),
                final(self).locked(),
            ),
            r is Ok ==> final(self).code() == old(self).code() + spill_code(
                old(self).contents(),
                old(self).locked(),
                old(self).program(),
                register,
            ),
            r is Ok ==> final(self).contents() == spilled(
                old(self).contents(),
                old(self).locked(),
                old(self).program(),
                register,
            ),
    {
        let r = self.prepare_locked_register(register);
        proof {
            if r is Ok && !(old(self).contents()[register.spec_index()] is Variable) {
                assert(old(self).contents().update(
                    register.spec_index(),
                    old(self).contents()[register.spec_index()],
                ).update(register.spec_index(), RegisterContent::Empty) =~= self.contents());
            }
        }
        r
    }

    /// What loading `value` into some register did: it chose the load
    /// target, and wrote nothing for a variable already held, a load from
    /// the variable's place in storage for another variable, or `mov` of
    /// the constant's 32 bits for a constant.
    #[verifier::opaque]
    pub open spec fn loaded_any(before: Self, after: Self, value: Value, register: Register) -> bool {
        &&& load_target(before.contents(), before.locked(), before.program(), value) == Some(register)
        &&& (after.contents(), after.locked()) == after_load_any(
            before.contents(),
            before.locked(),
            before.program(),
            value,
        )
        &&& match value {
            Value::VariableAccess { variable, .. } => if held(before.contents(), variable) {
                after.code() == before.code()
            } else {
                &&& after.storage().contains_key(variable.0)
                &&& after.code() == before.code() + load_opcode(register.spec_namespace()).push(
                    modrm_disp32(register),
                ) + le_bytes((after.storage()[variable.0] as u32) as nat, 4)
            },
            Value::Literal(data) => after.code() == before.code().push(
                (0xb8 + register.spec_opcode_index()) as u8,
            ) + le_bytes(data.spec_binary_data() as nat, 4),
        }
    }

    /// Loads `value` into a register that can hold it: the register that
    /// already holds the variable, or the first free one of its kind. The
    /// register is locked; it holds the variable, or a temporary value for
    /// a constant.
    fn load_value_into_any(&mut self, value: &Value) -> (r: Result<Register, AssemblyError>)
        requires
            old(self).wf(),
            value_in_range(*value, old(self).program().spec_variables().len()),
        ensures
            final(self).extends(old(self)),
            final(self).locked_kept(old(self)),
            r matches Ok(register) ==> {
                &&& is_variable_register(register.spec_index())
                &&& final(self).locked()[register.spec_index()]
                &&& forall|i: int|
                    0 <= i < NUM_REGISTERS && i != register.spec_index() ==> #[trigger] final(self).locked()[i] == old(self).locked()[i]
                &&& match *value {
                    Value::VariableAccess { variable, .. } => final(self).contents()[register.spec_index()]
                        == RegisterContent::Variable(variable),
                    Value::Literal(..) => final(self).contents()[register.spec_index()]
                        == RegisterContent::Temporary,
                }
                &&& final(self).contents() == old(self).contents().update(
                    register.spec_index(),
                    final(self).contents()[register.spec_index()],
                )
                &&& (old(self).contents()[register.spec_index()] == final(self).contents()[register.spec_index()]
                    || (old(self).contents()[register.spec_index()] == RegisterContent::Empty
                    && !old(self).locked()[register.spec_index()]))
            },
            r is Ok <==> can_load_any(
                old(self).contents(),
                old(self).locked(),
                old(self).storage(),
                old(self).storage_size(),
                old(self).program(),
                *value,
            ),
            final(self).storage_size() <= old(self).storage_size() + 4,
            r is Ok ==> loses_at_most_one(
                old(self).contents(),
                old(self).locked(),
                final(self).contents(),
                final(self).locked(),
            ),
            r matches Ok(register) ==> Self::loaded_any(*old(self), *final(self), *value, register),
    {
        proof {
            reveal(Assembler::loaded_any);
        }
        proof {
            lemma_variable_register_indices();
        }
        match value {
            Value::VariableAccess { variable, .. } => {
                let found = self.meta_find_register_containing(
                    RegisterContent::Variable(*variable),
                );
                proof {
                    lemma_first_holding_in_list(
                        self.contents(),
                        variable_registers(),
                        RegisterContent::Variable(*variable),
                    );
                }
                if let Some(register) = found {
                    self.meta_lock_register(register);
                    proof {
                        lemma_lose_one(old(self).contents(), old(self).locked(), self.contents(), self.locked(), register.spec_index());
                            assert(self.locked() =~= old(self).locked().update(register.spec_index(), true));
                            assert(self.contents() =~= old(self).contents().update(register.spec_index(), content_of(*value)));
                    }
                    Ok(register)
                } else {
                    let data_type = self.source.borrow_variable(*variable).typ.base;
                    let write_into = self.prepare_any_register_for(data_type)?;
                    self.write_mov_var32_to_register(write_into, *variable)?;
                    self.register_contents.set(
                        write_into.index(),
                        RegisterContent::Variable(*variable),
                    );
                    self.meta_lock_register(write_into);
                    proof {
                        lemma_lose_one(old(self).contents(), old(self).locked(), self.contents(), self.locked(), write_into.spec_index());
                            assert(self.locked() =~= old(self).locked().update(write_into.spec_index(), true));
                            assert(self.contents() =~= old(self).contents().update(write_into.spec_index(), content_of(*value)));
                    }
                    Ok(write_into)
                }
            },
            Value::Literal(data) => {
                let data_type = data.get_type().base;
                let binary_data = data.binary_data();
                let write_into = self.prepare_any_register_for(data_type)?;
                self.write_mov_imm32_to_register(write_into, binary_data)?;
                self.register_contents.set(write_into.index(), RegisterContent::Temporary);
                self.meta_lock_register(write_into);
                proof {
                    lemma_lose_one(old(self).contents(), old(self).locked(), self.contents(), self.locked(), write_into.spec_index());
                        assert(self.locked() =~= old(self).locked().update(write_into.spec_index(), true));
                        assert(self.contents() =~= old(self).contents().update(write_into.spec_index(), content_of(*value)));
                }
                Ok(write_into)
            },
        }
    }

    /// Loads `value` into `register`, first moving away whatever the register
    /// held that is needed later. The register then holds the variable, or
    /// a temporary value for a constant, and is locked in either case.
    fn load_value_into_register(&mut self, value: &Value, register: Register) -> (r: Result<
        Register,
        AssemblyError,
    >)
        requires
            old(self).wf(),
            value_in_range(*value, old(self).program().spec_variables().len()),
            is_variable_register(register.spec_index()),
            !old(self).locked()[register.spec_index()],
        ensures
            final(self).extends(old(self)),
            r is Ok ==> final(self).locked() == old(self).locked().update(register.spec_index(), true),
            r is Err ==> final(self).locked() == old(self).locked(),
            final(self).locked_kept(old(self)),
            r matches Ok(reg) ==> reg == register && match *value {
                Value::VariableAccess { variable, .. } => final(self).contents()[register.spec_index()]
                    == RegisterContent::Variable(variable),
                Value::Literal(..) => final(self).contents()[register.spec_index()]
                    == RegisterContent::Temporary,
            },
            r is Ok <==> can_load_into(
                old(self).contents(),
                old(self).locked(),
                old(self).storage(),
                old(self).storage_size(),
                old(self).program(),
                *value,
                register,
            ),
            final(self).storage_size() <= old(self).storage_size() + 4,
            r is Ok ==> exists|w: Register|
                {
                    &&& is_variable_register(w.spec_index())
                    &&& (w == register || (old(self).contents()[w.spec_index()] == RegisterContent::Empty
                        && !old(self).locked()[w.spec_index()]))
                    &&& final(self).contents() == old(self).contents().update(
                        w.spec_index(),
                        old(self).contents()[register.spec_index()],
                    ).update(register.spec_index(), final(self).contents()[register.spec_index()])
                },
            r is Ok ==> loses_at_most_one(
                old(self).contents(),
                old(self).locked(),
                final(self).contents(),
                final(self).locked(),
            ),
            r is Ok ==> (final(self).contents(), final(self).locked()) == after_load_into(
                old(self).contents(),
                old(self).locked(),
                old(self).program(),
                *value,
                register,
            ),
    {
        self.prepare_register(register)?;
        let ghost mid = self.contents();
        let ghost w = choose|w: Register|
            {
                &&& is_variable_register(w.spec_index())
                &&& ((w == register && !(old(self).contents()[register.spec_index()] is Variable))
                    || (w != register && old(self).contents()[w.spec_index()] == RegisterContent::Empty
                    && !old(self).locked()[w.spec_index()]))
                &&& mid == old(self).contents().update(
                    w.spec_index(),
                    old(self).contents()[register.spec_index()],
                ).update(register.spec_index(), RegisterContent::Empty)
            };
        proof {
            if let Value::VariableAccess { variable, .. } = *value {
                lemma_held_iff(mid, variable);
                lemma_held_iff(old(self).contents(), variable);
                let x = RegisterContent::Variable(variable);
                if held(old(self).contents(), variable) {
                    let i = choose|i: int| is_variable_register(i) && #[trigger] old(self).contents()[i] == x;
                    if i == register.spec_index() {
                        assert(mid[w.spec_index()] == x);
                    } else if i == w.spec_index() {
                        assert(false);
                    } else {
                        assert(mid[i] == x);
                    }
                }
                if held(mid, variable) {
                    let i = choose|i: int| is_variable_register(i) && #[trigger] mid[i] == x;
                    if i == w.spec_index() && w != register {
                        assert(old(self).contents()[register.spec_index()] == x);
                    } else {
                        assert(old(self).contents()[i] == x);
                    }
                }
            }
        }
        match value {
            Value::VariableAccess { variable, .. } => {
                let found = self.meta_find_register_containing(
                    RegisterContent::Variable(*variable),
                );
                if let Some(already_in) = found {
                    self.write_mov_reg32_to_reg32(already_in, register);
                } else {
                    self.write_mov_var32_to_register(register, *variable)?;
                }
                self.register_contents.set(register.index(), RegisterContent::Variable(*variable));
            },
            Value::Literal(data) => {
                let binary_data = data.binary_data();
                self.write_mov_imm32_to_register(register, binary_data)?;
                self.register_contents.set(register.index(), RegisterContent::Temporary);
            },
        }
        self.meta_lock_register(register);
        assert(self.contents() =~= old(self).contents().update(
            w.spec_index(),
            old(self).contents()[register.spec_index()],
        ).update(register.spec_index(), self.contents()[register.spec_index()]));
        proof {
            let j = if is_free(old(self).contents(), old(self).locked(), register.spec_index()) {
                register.spec_index()
            } else {
                w.spec_index()
            };
            lemma_lose_one(old(self).contents(), old(self).locked(), self.contents(), self.locked(), j);
        }
        Ok(register)
    }

    /// Sets a primary register to zero, by xor-ing it with itself; the
    /// register is locked and holds a temporary value.
    fn load_zero_into_register(&mut self, register: Register) -> (r: Result<Register, AssemblyError>)
        requires
            old(self).wf(),
            is_variable_register(register.spec_index()),
            !old(self).locked()[register.spec_index()],
        ensures
            final(self).extends(old(self)),
            final(self).locked_kept(old(self)),
            r is Ok ==> final(self).locked() == old(self).locked().update(register.spec_index(), true),
            r is Err ==> final(self).locked() == old(self).locked(),
            r matches Ok(reg) ==> reg == register && final(self).contents()[register.spec_index()]
                == RegisterContent::Temporary,
            r is Ok <==> can_prepare(old(self).contents(), old(self).locked(), old(self).program(), register),
            final(self).storage_size() == old(self).storage_size(),
            r is Ok ==> exists|w: Register|
                {
                    &&& is_variable_register(w.spec_index())
                    &&& ((w == register && !(old(self).contents()[register.spec_index()] is Variable))
                        || (w != register && old(self).contents()[w.spec_index()] == RegisterContent::Empty
                        && !old(self).locked()[w.spec_index()]))
                    &&& final(self).contents() == old(self).contents().update(
                        w.spec_index(),
                        old(self).contents()[register.spec_index()],
                    ).update(register.spec_index(), RegisterContent::Temporary)
                },
            r is Ok ==> loses_at_most_one(
                old(self).contents(),
                old(self).locked(),
                final(self).contents(),
                final(self).locked(),
            ),
            r is Ok ==> final(self).code() == old(self).code() + spill_code(
                old(self).contents(),
                old(self).locked(),
                old(self).program(),
                register,
            ) + seq![0x33u8, modrm_two(register, register)],
            r is Ok ==> (final(self).contents(), final(self).locked()) == after_load_zero(
                old(self).contents(),
                old(self).locked(),
                old(self).program(),
                register,
            ),
    {
        self.prepare_register(register)?;
        let ghost mid = self.contents();
        let ghost w = choose|w: Register|
            {
                &&& is_variable_register(w.spec_index())
                &&& ((w == register && !(old(self).contents()[register.spec_index()] is Variable))
                    || (w != register && old(self).contents()[w.spec_index()] == RegisterContent::Empty
                    && !old(self).locked()[w.spec_index()]))
                &&& mid == old(self).contents().update(
                    w.spec_index(),
                    old(self).contents()[register.spec_index()],
                ).update(register.spec_index(), RegisterContent::Empty)
            };
        self.write_byte(0x33);
        self.write_modrm_two_register(register, register);
        self.register_contents.set(register.index(), RegisterContent::Temporary);
        self.meta_lock_register(register);
        assert(self.contents() =~= old(self).contents().update(
            w.spec_index(),
            old(self).contents()[register.spec_index()],
        ).update(register.spec_index(), RegisterContent::Temporary));
        proof {
            let j = if is_free(old(self).contents(), old(self).locked(), register.spec_index()) {
                register.spec_index()
            } else {
                w.spec_index()
            };
            lemma_lose_one(old(self).contents(), old(self).locked(), self.contents(), self.locked(), j);
        }
        Ok(register)
    }

    /// Records that `register` now holds the variable `value` names: any
    /// other register that held it no longer does.
    fn commit_value_in_register(&mut self, value: &Value, register: Register)
        requires
            old(self).wf(),
            value_in_range(*value, old(self).program().spec_variables().len()),
            is_variable_register(register.spec_index()),
        ensures
            final(self).wf(),
            final(self).locked() == old(self).locked(),
            final(self).code() == old(self).code(),
            final(self).storage() == old(self).storage(),
            final(self).storage_size() == old(self).storage_size(),
            final(self).program() == old(self).program(),
            final(self).spec_inputs() == old(self).spec_inputs(),
            final(self).spec_outputs() == old(self).spec_outputs(),
            match *value {
                Value::VariableAccess { variable, .. } => forall|i: int|
                    0 <= i < NUM_REGISTERS ==> #[trigger] final(self).contents()[i] == if i
                        == register.spec_index() {
                        RegisterContent::Variable(variable)
                    } else if is_variable_register(i) && old(self).contents()[i]
                        == RegisterContent::Variable(variable) {
                        RegisterContent::Empty
                    } else {
                        old(self).contents()[i]
                    },
                Value::Literal(..) => final(self).contents() == old(self).contents(),
            },
            *value matches Value::VariableAccess { variable, .. } ==> sole_holder(
                final(self).contents(),
                variable,
            ),
    {
        if let Value::VariableAccess { variable, .. } = value {
            let new_content = RegisterContent::Variable(*variable);
            let list = variable_register_list();
            let mut k: usize = 0;
            while k < 15
                invariant
                    k <= 15,
                    list@ == variable_registers(),
                    self.wf(),
                    forall|i: int|
                        0 <= i < NUM_REGISTERS ==> #[trigger] self.contents()[i] == if covered(
                            list@,
                            k as int,
                            i,
                        ) && old(self).contents()[i] == new_content {
                            RegisterContent::Empty
                        } else {
                            old(self).contents()[i]
                        },
                    self.locked() == old(self).locked(),
                    self.code() == old(self).code(),
                    self.storage() == old(self).storage(),
                    self.storage_size() == old(self).storage_size(),
                    self.program() == old(self).program(),
                    self.spec_inputs() == old(self).spec_inputs(),
                    self.spec_outputs() == old(self).spec_outputs(),
                decreases 15 - k,
            {
                let other = list[k];
                proof {
                    lemma_variable_register_indices();
                    if covered(list@, k as int, other.spec_index()) {
                        let j = choose|j: int|
                            0 <= j < k && #[trigger] list@[j].spec_index() == other.spec_index();
                        assert(false);
                    }
                    assert(self.contents()[other.spec_index()] == old(self).contents()[other.spec_index()]);
                }
                let ghost prev = self.contents();
                if self.register_contents[other.index()] == new_content {
                    self.register_contents.set(other.index(), RegisterContent::Empty);
                }
                assert(self.contents() == if prev[other.spec_index()] == new_content {
                    prev.update(other.spec_index(), RegisterContent::Empty)
                } else {
                    prev
                });
                k = k + 1;
                assert forall|i: int| 0 <= i < NUM_REGISTERS implies #[trigger] covered(
                    list@,
                    k as int,
                    i,
                ) == (covered(list@, k - 1, i) || other.spec_index() == i) by {
                    if other.spec_index() == i {
                        assert(list@[k - 1].spec_index() == i);
                    }
                    if covered(list@, k as int, i) && other.spec_index() != i {
                        let j = choose|j: int| 0 <= j < k && #[trigger] list@[j].spec_index() == i;
                        assert(j < k - 1);
                    }
                }
            }
            assert forall|i: int| 0 <= i < NUM_REGISTERS implies #[trigger] covered(list@, 15, i)
                == is_variable_register(i) by {
                lemma_variable_register_indices();
                if is_variable_register(i) {
                    if i == 0 { assert(list@[5].spec_index() == i); }
                    else if i == 1 { assert(list@[0].spec_index() == i); }
                    else if i == 2 { assert(list@[6].spec_index() == i); }
                    else if i == 3 { assert(list@[1].spec_index() == i); }
                    else if i == 4 { assert(list@[2].spec_index() == i); }
                    else if i == 6 { assert(list@[3].spec_index() == i); }
                    else if i == 7 { assert(list@[4].spec_index() == i); }
                    else { assert(list@[i - 1].spec_index() == i); }
                }
            }
            let ghost swept = self.contents();
            self.register_contents.set(register.index(), new_content);
            assert forall|i: int| 0 <= i < NUM_REGISTERS implies #[trigger] self.contents()[i] == if i
                == register.spec_index() {
                RegisterContent::Variable(*variable)
            } else if is_variable_register(i) && old(self).contents()[i] == RegisterContent::Variable(
                *variable,
            ) {
                RegisterContent::Empty
            } else {
                old(self).contents()[i]
            } by {
                assert(covered(list@, 15, i) == is_variable_register(i));
                assert(swept[i] == if covered(list@, 15, i) && old(self).contents()[i] == new_content {
                    RegisterContent::Empty
                } else {
                    old(self).contents()[i]
                });
            }
            assert(is_variable_register(register.spec_index()) && self.contents()[register.spec_index()]
                == RegisterContent::Variable(*variable));
        }
    }

    /// The common shape of most operations: load both operands, kill what
    /// dies here, free the first operand's register for the result, write
    /// the operation, unlock, and record where the result is.
    #[verifier::spinoff_prover]
    #[verifier::rlimit(100)]
    fn assemble_two_operand(
        &mut self,
        op: BinaryOperator,
        a: &Value,
        b: &Value,
        x: &Value,
        kills: &[VariableId],
    ) -> (r: Result<(), AssemblyError>)
        requires
            old(self).wf(),
            op is AddI || op is SubI || op is MulI || op is AddF || op is SubF || op is MulF
                || op is DivF,
            value_in_range(*a, old(self).program().spec_variables().len()),
            value_in_range(*b, old(self).program().spec_variables().len()),
            value_in_range(*x, old(self).program().spec_variables().len()),
        ensures
            final(self).extends(old(self)),
            r is Ok ==> all_unlocked(final(self).locked()),
            r is Ok ==> (*x matches Value::VariableAccess { variable, .. } ==> sole_holder(
                final(self).contents(),
                variable,
            )),
            r is Ok ==> operation_emitted(
                op,
                *a,
                *b,
                *x,
                old(self).contents(),
                old(self).locked(),
                old(self).program(),
                final(self).code(),
                final(self).contents(),
            ),
            has_resources(old(self).contents(), old(self).locked(), old(self).storage_size(), 3)
                && operand_loadable(old(self).program(), *a) && operand_loadable(
                old(self).program(),
                *b,
            ) ==> r is Ok,
    {
        let ghost program = self.program();
        let ghost good = has_resources(self.contents(), self.locked(), self.storage_size(), 3)
            && operand_loadable(program, *a) && operand_loadable(program, *b);
        proof {
            if good {
                lemma_operand_loadable(self.contents(), self.locked(), self.storage(), self.storage_size(), program, *a);
            }
        }
        let ghost c0 = self.contents();
        let ghost l0 = self.locked();
        let ghost s0 = *self;
        let reg_a = self.load_value_into_any(a)?;
        let ghost held_a = self.contents()[reg_a.spec_index()];
        let ghost c1 = self.contents();
        let ghost l1 = self.locked();
        assert(load_target(c0, l0, program, *a) == Some(reg_a) && (c1, l1) == after_load_any(
            c0,
            l0,
            program,
            *a,
        )) by {
            reveal(Assembler::loaded_any);
        }
        proof {
            if good {
                lemma_operand_loadable(self.contents(), self.locked(), self.storage(), self.storage_size(), program, *b);
            }
        }
        let reg_b = self.load_value_into_any(b)?;
        assert(load_target(c1, l1, program, *b) == Some(reg_b)) by {
            reveal(Assembler::loaded_any);
        }
        let ghost before_kill = self.contents();
        self.meta_kill_variables(kills);
        proof {
            if good {
                lemma_kill_all(before_kill, kills@);
                lemma_prepare_loaded(self.contents(), self.locked(), program, reg_a, *a, held_a);
            }
        }
        self.prepare_locked_register(reg_a)?;
        let ghost mid = self.code();
        match op {
            // Add to the second operand.
            BinaryOperator::AddI => {
                self.write_byte(0x01);
                self.write_modrm_two_register(reg_b, reg_a);
            },
            // Subtract from the second operand.
            BinaryOperator::SubI => {
                self.write_byte(0x29);
                self.write_modrm_two_register(reg_b, reg_a);
            },
            // Multiply into the first operand.
            BinaryOperator::MulI => {
                self.write_byte(0x0f);
                self.write_byte(0xaf);
                self.write_modrm_two_register(reg_a, reg_b);
            },
            // addss, subss, mulss, divss into the first operand.
            BinaryOperator::AddF => {
                self.write_byte(0xf3);
                self.write_byte(0x0f);
                self.write_byte(0x58);
                self.write_modrm_two_register(reg_a, reg_b);
            },
            BinaryOperator::SubF => {
                self.write_byte(0xf3);
                self.write_byte(0x0f);
                self.write_byte(0x5c);
                self.write_modrm_two_register(reg_a, reg_b);
            },
            BinaryOperator::MulF => {
                self.write_byte(0xf3);
                self.write_byte(0x0f);
                self.write_byte(0x59);
                self.write_modrm_two_register(reg_a, reg_b);
            },
            _ => {
                self.write_byte(0xf3);
                self.write_byte(0x0f);
                self.write_byte(0x5e);
                self.write_modrm_two_register(reg_a, reg_b);
            },
        }
        let ghost tail = operation_tail(op, reg_a, reg_b, reg_a);
        assert(self.code() =~= mid + tail);
        self.meta_unlock_registers();
        self.commit_value_in_register(x, reg_a);
        assert(self.code().subrange(self.code().len() - tail.len(), self.code().len() as int) =~= tail);
        assert(ends_with(self.code(), operation_tail(op, reg_a, reg_b, reg_a)));
        Ok(())
    }

    /// The division instruction: the dividend goes in A (low half) and D
    /// (high half, zero); the quotient lands in A and the remainder in D.
    #[verifier::spinoff_prover]
    #[verifier::rlimit(80)]
    fn assemble_division(
        &mut self,
        op: BinaryOperator,
        a: &Value,
        b: &Value,
        x: &Value,
        kills: &[VariableId],
    ) -> (r: Result<(), AssemblyError>)
        requires
            old(self).wf(),
            op is DivI || op is ModI,
            all_unlocked(old(self).locked()),
            value_in_range(*a, old(self).program().spec_variables().len()),
            value_in_range(*b, old(self).program().spec_variables().len()),
            value_in_range(*x, old(self).program().spec_variables().len()),
        ensures
            final(self).extends(old(self)),
            r is Ok ==> all_unlocked(final(self).locked()),
            r is Ok ==> (*x matches Value::VariableAccess { variable, .. } ==> sole_holder(
                final(self).contents(),
                variable,
            )),
            r is Ok ==> operation_emitted(
                op,
                *a,
                *b,
                *x,
                old(self).contents(),
                old(self).locked(),
                old(self).program(),
                final(self).code(),
                final(self).contents(),
            ),
            has_resources(old(self).contents(), old(self).locked(), old(self).storage_size(), 4)
                && no_bool_held(old(self).contents(), old(self).program()) && operand_loadable(
                old(self).program(),
                *a,
            ) && operand_loadable(old(self).program(), *b) ==> r is Ok,
    {
        assert(is_variable_register(Register::A.spec_index()));
        assert(is_variable_register(Register::D.spec_index()));
        let ghost program = self.program();
        let ghost good = has_resources(self.contents(), self.locked(), self.storage_size(), 4)
            && no_bool_held(self.contents(), program) && operand_loadable(program, *a)
            && operand_loadable(program, *b);
        let ghost c0 = self.contents();
        proof {
            if good {
                if let RegisterContent::Variable(v) = c0[Register::A.spec_index()] {
                    lemma_room(c0, self.locked(), variable_type(program, v));
                }
            }
        }
        let reg_a = self.load_value_into_register(a, Register::A)?;
        let ghost c1 = self.contents();
        let ghost l1 = self.locked();
        let ghost held_a = c1[Register::A.spec_index()];
        proof {
            if good {
                let w1 = choose|w: Register|
                    {
                        &&& is_variable_register(w.spec_index())
                        &&& (w == Register::A || (c0[w.spec_index()] == RegisterContent::Empty
                            && !old(self).locked()[w.spec_index()]))
                        &&& c1 == c0.update(w.spec_index(), c0[Register::A.spec_index()]).update(
                            Register::A.spec_index(),
                            held_a,
                        )
                    };
                assert forall|i: int| 0 <= i < NUM_REGISTERS implies (#[trigger] c1[i] matches RegisterContent::Variable(v)
                    ==> variable_type(program, v) != NativeBaseType::B8) by {
                    if i != Register::A.spec_index() && i != w1.spec_index() {
                        assert(c1[i] == c0[i]);
                    }
                }
                if let RegisterContent::Variable(v) = c1[Register::D.spec_index()] {
                    lemma_room(c1, self.locked(), variable_type(program, v));
                }
            }
        }
        let reg_remainder = self.load_zero_into_register(Register::D)?;
        let ghost c2 = self.contents();
        proof {
            if good {
                let w2 = choose|w: Register|
                    {
                        &&& is_variable_register(w.spec_index())
                        &&& ((w == Register::D && !(c1[Register::D.spec_index()] is Variable))
                            || (w != Register::D && c1[w.spec_index()] == RegisterContent::Empty
                            && !l1[w.spec_index()]))
                        &&& c2 == c1.update(w.spec_index(), c1[Register::D.spec_index()]).update(
                            Register::D.spec_index(),
                            RegisterContent::Temporary,
                        )
                    };
                assert(c2[Register::A.spec_index()] == held_a);
                lemma_operand_loadable(c2, self.locked(), self.storage(), self.storage_size(), program, *b);
            }
        }
        let ghost l2 = self.locked();
        assert((c1, l1) == after_load_into(c0, old(self).locked(), program, *a, Register::A));
        assert((c2, l2) == after_load_zero(c1, l1, program, Register::D));
        let reg_b = self.load_value_into_any(b)?;
        assert(load_target(c2, l2, program, *b) == Some(reg_b)) by {
            reveal(Assembler::loaded_any);
        }
        let ghost c3 = self.contents();
        proof {
            if good {
                assert(c3[Register::A.spec_index()] == held_a);
                assert(c3[Register::D.spec_index()] == RegisterContent::Temporary);
            }
        }
        self.meta_kill_variables(kills);
        let result = match op {
            BinaryOperator::ModI => reg_remainder,
            _ => reg_a,
        };
        proof {
            if good {
                lemma_kill_all(c3, kills@);
                lemma_prepare_loaded(self.contents(), self.locked(), program, Register::A, *a, held_a);
            }
        }
        self.prepare_locked_register(result)?;
        let ghost mid = self.code();
        // Divide by the second operand; the first is implied.
        self.write_byte(0xF7);
        let code = reg_b.opcode_index_u8();
        assert(0xF8u8 | code == 0xF8 + code) by (bit_vector)
            requires
                code < 8,
        ;
        self.write_byte(0b11111000 | code);
        let ghost tail = operation_tail(op, result, reg_b, result);
        assert(self.code() =~= mid + tail);
        self.meta_unlock_registers();
        self.commit_value_in_register(x, result);
        assert(self.code().subrange(self.code().len() - tail.len(), self.code().len() as int) =~= tail);
        assert(ends_with(self.code(), operation_tail(op, result, reg_b, result)));
        Ok(())
    }

    /// There is no XMM remainder instruction: compute `a - b * trunc(a / b)`.
    #[verifier::spinoff_prover]
    #[verifier::rlimit(60)]
    fn assemble_float_remainder(
        &mut self,
        a: &Value,
        b: &Value,
        x: &Value,
        kills: &[VariableId],
    ) -> (r: Result<(), AssemblyError>)
        requires
            old(self).wf(),
            value_in_range(*a, old(self).program().spec_variables().len()),
            value_in_range(*b, old(self).program().spec_variables().len()),
            value_in_range(*x, old(self).program().spec_variables().len()),
        ensures
            final(self).extends(old(self)),
            r is Ok ==> all_unlocked(final(self).locked()),
            r is Ok ==> (*x matches Value::VariableAccess { variable, .. } ==> sole_holder(
                final(self).contents(),
                variable,
            )),
            r is Ok ==> operation_emitted(
                BinaryOperator::ModF,
                *a,
                *b,
                *x,
                old(self).contents(),
                old(self).locked(),
                old(self).program(),
                final(self).code(),
                final(self).contents(),
            ),
            has_resources(old(self).contents(), old(self).locked(), old(self).storage_size(), 3)
                && operand_loadable(old(self).program(), *a) && operand_loadable(
                old(self).program(),
                *b,
            ) ==> r is Ok,
    {
        let ghost program = self.program();
        let ghost good = has_resources(self.contents(), self.locked(), self.storage_size(), 3)
            && operand_loadable(program, *a) && operand_loadable(program, *b);
        proof {
            if good {
                lemma_operand_loadable(self.contents(), self.locked(), self.storage(), self.storage_size(), program, *a);
            }
        }
        let ghost c0 = self.contents();
        let ghost l0 = self.locked();
        let ghost s0 = *self;
        let reg_a = self.load_value_into_any(a)?;
        let ghost held_a = self.contents()[reg_a.spec_index()];
        let ghost c1 = self.contents();
        let ghost l1 = self.locked();
        assert(load_target(c0, l0, program, *a) == Some(reg_a) && (c1, l1) == after_load_any(
            c0,
            l0,
            program,
            *a,
        )) by {
            reveal(Assembler::loaded_any);
        }
        proof {
            if good {
                lemma_operand_loadable(self.contents(), self.locked(), self.storage(), self.storage_size(), program, *b);
            }
        }
        let reg_b = self.load_value_into_any(b)?;
        assert(load_target(c1, l1, program, *b) == Some(reg_b)) by {
            reveal(Assembler::loaded_any);
        }
        proof {
            if good {
                lemma_room(self.contents(), self.locked(), NativeBaseType::F32);
            }
        }
        // Keep a copy of a.
        let reg_a2 = self.prepare_any_register_for(NativeBaseType::F32)?;
        self.write_mov_reg32_to_reg32(reg_a, reg_a2);
        let ghost before_kill = self.contents();
        self.meta_kill_variables(kills);
        proof {
            if good {
                lemma_kill_all(before_kill, kills@);
                lemma_prepare_loaded(self.contents(), self.locked(), program, reg_a, *a, held_a);
            }
        }
        self.prepare_locked_register(reg_a)?;
        let ghost mid = self.code();
        // divss: reg_a = a / b.
        self.write_bytes(&[0xf3, 0x0f, 0x5e]);
        self.write_modrm_two_register(reg_a, reg_b);
        // roundss with truncation: reg_a = trunc(a / b).
        self.write_bytes(&[0x66, 0x0f, 0x3a, 0x0a]);
        self.write_modrm_two_register(reg_a, reg_a);
        self.write_byte(0b0011);
        // mulss: reg_a = b * trunc(a / b).
        self.write_bytes(&[0xf3, 0x0f, 0x59]);
        self.write_modrm_two_register(reg_a, reg_b);
        // subss: reg_a2 = a - b * trunc(a / b).
        self.write_bytes(&[0xf3, 0x0f, 0x5c]);
        self.write_modrm_two_register(reg_a2, reg_a);
        let ghost tail = operation_tail(BinaryOperator::ModF, reg_a2, reg_b, reg_a);
        assert(self.code() =~= mid + tail);
        self.meta_unlock_registers();
        self.commit_value_in_register(x, reg_a2);
        assert(self.code().subrange(self.code().len() - tail.len(), self.code().len() as int) =~= tail);
        assert(ends_with(self.code(), operation_tail(BinaryOperator::ModF, reg_a2, reg_b, reg_a)));
        Ok(())
    }

    /// Adds the machine code of one instruction.
    /// General template: load the operands (`load_*`), mark the variables
    /// that die here as temporary (`meta_kill_variables`), prepare the
    /// registers the instruction overwrites (`prepare_locked_register`),
    /// write the code (`write_*`), unlock the registers
    /// (`meta_unlock_registers`) and record where the result now lives
    /// (`commit_value_in_register`).
    fn assemble_instruction(&mut self, instruction: &AnnotatedInstruction) -> (r: Result<
        (),
        AssemblyError,
    >)
        requires
            old(self).wf(),
            all_unlocked(old(self).locked()),
            annotated_in_range(*instruction, old(self).program().spec_variables().len()),
        ensures
            final(self).extends(old(self)),
            r is Ok ==> all_unlocked(final(self).locked()),
            r is Ok ==> (destination(instruction.instruction) matches Some(variable) ==> sole_holder(
                final(self).contents(),
                variable,
            )),
            instruction.instruction matches Instruction::Assert(condition) ==> r is Ok
                && final(self).code() == old(self).code() + assert_bytes(condition),
            instruction.instruction matches Instruction::BinaryOperation { op, .. } ==> (!(op
                is AddI || op is SubI || op is MulI || op is DivI || op is ModI || op is AddF
                || op is SubF || op is MulF || op is DivF || op is ModF) ==> r == Err::<
                (),
                AssemblyError,
            >(AssemblyError::UnsupportedOperator)),
            instruction.instruction matches Instruction::BinaryOperation { op, a, b, x } ==> (r is Ok
                ==> operation_emitted(
                op,
                a,
                b,
                x,
                old(self).contents(),
                old(self).locked(),
                old(self).program(),
                final(self).code(),
                final(self).contents(),
            )),
            instruction.instruction matches Instruction::Compare { .. } ==> (r is Ok ==> exists|
                first: Register,
                second: Register,
            | ends_with(final(self).code(), seq![0x39u8, #[trigger] modrm_two(first, second)])),
            instruction.instruction matches Instruction::Compare { a, b } ==> (r is Ok ==> exists|
                loaded_a: Self,
                loaded_b: Self,
                first: Register,
                second: Register,
            |
                {
                    &&& #[trigger] Self::loaded_any(*old(self), loaded_a, a, first)
                    &&& #[trigger] Self::loaded_any(loaded_a, loaded_b, b, second)
                    &&& final(self).code() == loaded_b.code() + seq![0x39u8, modrm_two(first, second)]
                }),
            instruction.instruction matches Instruction::Move { from, to } ==> (r is Ok ==> exists|
                loaded: Self,
                register: Register,
            |
                {
                    &&& #[trigger] Self::loaded_any(*old(self), loaded, from, register)
                    &&& final(self).code() == loaded.code() + spill_code(
                        kill_all(loaded.contents(), instruction.kills@),
                        loaded.locked(),
                        loaded.program(),
                        register,
                    )
                    &&& (to matches Value::VariableAccess { variable, .. } ==> final(self).contents()[register.spec_index()]
                        == RegisterContent::Variable(variable))
                }),
            instruction_fits(
                instruction.instruction,
                old(self).contents(),
                old(self).locked(),
                old(self).storage_size(),
                old(self).program(),
            ) ==> r is Ok,
            r is Ok ==> instruction_step(
                old(self).state(),
                final(self).state(),
                *instruction,
                old(self).program(),
            ),
    {
        let kills = instruction.kills.as_slice();
        match &instruction.instruction {
            Instruction::Move { from, to } => {
                let ghost program = self.program();
                let ghost good = instruction_fits(
                    instruction.instruction,
                    self.contents(),
                    self.locked(),
                    self.storage_size(),
                    program,
                );
                proof {
                    if good {
                        lemma_operand_loadable(self.contents(), self.locked(), self.storage(), self.storage_size(), program, *from);
                    }
                }
                let reg_from = self.load_value_into_any(from)?;
                let ghost loaded = *self;
                let ghost held_from = self.contents()[reg_from.spec_index()];
                // The register gets a new label; if `from` is still needed, it
                // is saved first.
                self.meta_kill_variables(kills);
                proof {
                    if good {
                        lemma_kill_all(loaded.contents(), kills@);
                        lemma_prepare_loaded(self.contents(), self.locked(), program, reg_from, *from, held_from);
                    }
                }
                self.prepare_locked_register(reg_from)?;
                self.meta_unlock_registers();
                self.commit_value_in_register(to, reg_from);
                assert(Self::loaded_any(*old(self), loaded, *from, reg_from));
                Ok(())
            },
            Instruction::BinaryOperation { op, a, b, x } => match op {
                BinaryOperator::AddI | BinaryOperator::SubI | BinaryOperator::MulI
                | BinaryOperator::AddF | BinaryOperator::SubF | BinaryOperator::MulF
                | BinaryOperator::DivF => self.assemble_two_operand(*op, a, b, x, kills),
                BinaryOperator::DivI | BinaryOperator::ModI => self.assemble_division(
                    *op,
                    a,
                    b,
                    x,
                    kills,
                ),
                BinaryOperator::ModF => self.assemble_float_remainder(a, b, x, kills),
                _ => Err(AssemblyError::UnsupportedOperator),
            },
            Instruction::Compare { a, b } => {
                let ghost program = self.program();
                let ghost good = instruction_fits(
                    instruction.instruction,
                    self.contents(),
                    self.locked(),
                    self.storage_size(),
                    program,
                );
                proof {
                    if good {
                        lemma_operand_loadable(self.contents(), self.locked(), self.storage(), self.storage_size(), program, *a);
                    }
                }
                let reg_a = self.load_value_into_any(a)?;
                let ghost loaded_a = *self;
                proof {
                    if good {
                        lemma_operand_loadable(self.contents(), self.locked(), self.storage(), self.storage_size(), program, *b);
                    }
                }
                let reg_b = self.load_value_into_any(b)?;
                let ghost loaded_b = *self;
                assert(Self::loaded_any(*old(self), loaded_a, *a, reg_a));
                assert(Self::loaded_any(loaded_a, loaded_b, *b, reg_b));
                self.meta_kill_variables(kills);
                // Compare two registers.
                let ghost mid = self.code();
                self.write_byte(0x39);
                self.write_modrm_two_register(reg_a, reg_b);
                self.meta_unlock_registers();
                let ghost tail = seq![0x39u8, modrm_two(reg_a, reg_b)];
                assert(self.code() =~= mid + tail);
                assert(self.code().subrange(self.code().len() - 2, self.code().len() as int) =~= tail);
                assert(ends_with(self.code(), tail));
                Ok(())
            },
            Instruction::Assert(condition) => {
                self.meta_kill_variables(kills);
                // Skip the following code if the condition holds.
                let ghost before = self.code();
                self.write_jmp_cond_disp8(condition.code(), 10);
                // Return 1 to report the failure: 5 bytes, then 5 more.
                let loaded = self.write_mov_imm32_to_register(Register::A, 1);
                assert(loaded is Ok);
                self.write_restore_rsp_and_return();
                self.meta_unlock_registers();
                assert(self.code() =~= before + assert_bytes(*condition));
                Ok(())
            },
        }
    }

    /// Each input and output so far has the type of its variable and the
    /// variable's place in storage, past the saved stack pointer.
    pub closed spec fn io_addressed(&self, ins: nat, outs: nat) -> bool {
        let source = *self.source;
        &&& self.inputs@.len() == ins
        &&& self.outputs@.len() == outs
        &&& ins <= source.spec_inputs().len()
        &&& outs <= source.spec_outputs().len()
        &&& forall|i: int|
            0 <= i < ins ==> {
                let v = source.spec_inputs()[i];
                &&& self.storage().contains_key(v.0)
                &&& (#[trigger] self.inputs@[i]).1 == self.storage()[v.0]
                &&& self.inputs@[i].0 == variable_type(source, v)
            }
        &&& forall|i: int|
            0 <= i < outs ==> {
                let v = source.spec_outputs()[i];
                &&& self.storage().contains_key(v.0)
                &&& (#[trigger] self.outputs@[i]).1 == self.storage()[v.0]
                &&& self.outputs@[i].0 == variable_type(source, v)
            }
        &&& forall|k: usize| #[trigger] self.storage().contains_key(k) ==> self.storage()[k] >= 8
    }

    /// Storing the registers that hold `output` to its place in storage.
    fn store_output(&mut self, output: VariableId) -> (r: Result<(), AssemblyError>)
        requires
            old(self).wf(),
            output.0 < old(self).program().spec_variables().len(),
        ensures
            final(self).extends(old(self)),
            final(self).contents() == old(self).contents(),
            final(self).locked() == old(self).locked(),
            (forall|i: int|
                0 <= i < NUM_REGISTERS ==> #[trigger] old(self).contents()[i] != RegisterContent::Variable(
                    output,
                )) ==> r is Ok && final(self).code() == old(self).code(),
            r is Ok <==> holders(old(self).contents(), output, NUM_REGISTERS as int).len() == 0
                || storage_room(old(self).storage(), old(self).storage_size(), output),
            r is Ok ==> final(self).code() == old(self).code() + store_code(
                holders(old(self).contents(), output, NUM_REGISTERS as int),
                (final(self).storage()[output.0] as u32) as nat,
            ),
    {
        let mut registers: Vec<Register> = Vec::new();
        let mut index: usize = 0;
        while index < NUM_REGISTERS
            invariant
                index <= NUM_REGISTERS,
                self.wf(),
                self == old(self),
                registers@ == holders(old(self).contents(), output, index as int),
                forall|i: int| 0 <= i < registers@.len() ==> 0 <= #[trigger] registers@[i].spec_index() < NUM_REGISTERS,
                (forall|i: int|
                    0 <= i < NUM_REGISTERS ==> #[trigger] old(self).contents()[i]
                        != RegisterContent::Variable(output)) ==> registers@.len() == 0,
            decreases NUM_REGISTERS - index,
        {
            let ghost before = registers@;
            if self.register_contents[index] == RegisterContent::Variable(output) {
                assert(old(self).contents()[index as int] == RegisterContent::Variable(output));
                if let Some(register) = Register::from_index(index) {
                    registers.push(register);
                }
            }
            assert(registers@ =~= holders(old(self).contents(), output, index + 1));
            index = index + 1;
        }
        let ghost all = registers@;
        let mut k: usize = 0;
        while k < registers.len()
            invariant
                k <= registers@.len(),
                registers@ == all,
                all == holders(old(self).contents(), output, NUM_REGISTERS as int),
                self.extends(old(self)),
                self.contents() == old(self).contents(),
                self.locked() == old(self).locked(),
                k == 0 ==> self.storage() == old(self).storage() && self.storage_size() == old(
                    self,
                ).storage_size() && self.code() == old(self).code(),
                k > 0 ==> self.storage().contains_key(output.0) && self.code() == old(self).code()
                    + store_code(all.take(k as int), (self.storage()[output.0] as u32) as nat),
                (forall|i: int|
                    0 <= i < NUM_REGISTERS ==> #[trigger] old(self).contents()[i]
                        != RegisterContent::Variable(output)) ==> registers@.len() == 0 && self.code()
                    == old(self).code(),
            decreases registers@.len() - k,
        {
            let ghost prev = *self;
            let ghost prev_code = self.code();
            self.write_mov_register_to_var32(registers[k], output)?;
            proof {
                let address = (self.storage()[output.0] as u32) as nat;
                assert(all.take(k + 1).drop_last() =~= all.take(k as int));
                if k > 0 {
                    assert(prev.storage()[output.0] == self.storage()[output.0]);
                } else {
                    assert(store_code(all.take(0), address) =~= Seq::<u8>::empty());
                }
                assert(self.code() =~= old(self).code() + store_code(all.take(k + 1), address));
            }
            k = k + 1;
        }
        proof {
            assert(all.take(all.len() as int) =~= all);
            if all.len() == 0 {
                assert(store_code(all, (self.storage()[output.0] as u32) as nat) =~= Seq::<u8>::empty());
                assert(self.code() =~= old(self).code() + store_code(all, (self.storage()[output.0] as u32) as nat));
            }
        }
        Ok(())
    }

    /// The final state of a successful run: the code lies between the
    /// prologue and the epilogue, and every input and output has its
    /// variable's slot of storage.
    proof fn lemma_assembled(&self, io_done: &Self, before_epilogue: Seq<u8>)
        requires
            self.extends(io_done),
            io_done.io_addressed(
                self.program().spec_inputs().len(),
                self.program().spec_outputs().len(),
            ),
            io_done.code() == prologue_bytes(),
            self.code() == before_epilogue + epilogue_bytes(),
            before_epilogue.len() >= io_done.code().len(),
        ensures
            ({
                let n = self.code().len();
                let source = self.program();
                let slots = self.spec_inputs() + self.spec_outputs();
                let ids = source.spec_inputs() + source.spec_outputs();
                &&& n >= 55
                &&& self.code().subrange(0, 45) == prologue_bytes()
                &&& self.code().subrange(n - 10, n as int) == epilogue_bytes()
                &&& self.spec_inputs().len() == source.spec_inputs().len()
                &&& self.spec_outputs().len() == source.spec_outputs().len()
                &&& forall|i: int|
                    0 <= i < slots.len() ==> (#[trigger] slots[i]).0 == variable_type(source, ids[i])
                        && 8 <= slots[i].1 && slots[i].1 + 4 <= self.storage_size()
                &&& forall|i: int, j: int|
                    0 <= i < slots.len() && 0 <= j < slots.len() ==> (ids[i] == ids[j] <==> #[trigger] slots[i].1
                        == #[trigger] slots[j].1) && (ids[i] != ids[j] ==> slots_disjoint(slots[i].1, slots[j].1))
            }),
    {
        let source = self.program();
        let ins = source.spec_inputs().len();
        let slots = self.spec_inputs() + self.spec_outputs();
        let ids = source.spec_inputs() + source.spec_outputs();
        assert(prologue_bytes().len() == 45) by {
            crate::native::x86_64::encoding::lemma_le_roundtrip(0, 8);
            crate::native::x86_64::encoding::lemma_le_roundtrip(11, 4);
        }
        assert(epilogue_bytes().len() == 10) by {
            crate::native::x86_64::encoding::lemma_le_roundtrip(0, 4);
        }
        assert(self.code().subrange(0, 45) =~= prologue_bytes());
        assert(self.code().subrange(self.code().len() - 10, self.code().len() as int) =~= epilogue_bytes());
        assert forall|i: int| 0 <= i < slots.len() implies {
            &&& self.storage().contains_key(ids[i].0)
            &&& slots[i].1 == self.storage()[ids[i].0]
            &&& slots[i].0 == variable_type(source, ids[i])
            &&& io_done.storage()[ids[i].0] >= 8
        } by {
            if i < ins {
                assert(slots[i] == io_done.spec_inputs()[i]);
                assert(ids[i] == source.spec_inputs()[i]);
            } else {
                assert(slots[i] == io_done.spec_outputs()[i - ins]);
                assert(ids[i] == source.spec_outputs()[i - ins]);
            }
        }
        assert forall|i: int| 0 <= i < slots.len() implies (#[trigger] slots[i]).0 == variable_type(
            source,
            ids[i],
        ) && 8 <= slots[i].1 && slots[i].1 + 4 <= self.storage_size() by {
            assert(self.storage().contains_key(ids[i].0));
        }
        assert forall|i: int, j: int|
            0 <= i < slots.len() && 0 <= j < slots.len() implies (ids[i] == ids[j] <==> #[trigger] slots[i].1
            == #[trigger] slots[j].1) && (ids[i] != ids[j] ==> slots_disjoint(slots[i].1, slots[j].1)) by {
            let ki = ids[i].0;
            let kj = ids[j].0;
            assert(self.storage().contains_key(ki));
            assert(self.storage().contains_key(kj));
            if ids[i] != ids[j] {
                assert(ki != kj);
                assert(self.storage_locations@[ki] + 4 <= self.storage_locations@[kj]
                    || self.storage_locations@[kj] + 4 <= self.storage_locations@[ki]);
            }
        }
        assert(self.code().len() >= 55);
        assert(self.spec_inputs().len() == source.spec_inputs().len());
        assert(self.spec_outputs().len() == source.spec_outputs().len());
    }

    /// Assembles the whole program: the prologue, the places of the inputs
    /// and outputs, every instruction, the stores that put the outputs in
    /// storage, and the epilogue.
    fn entry_point(&mut self) -> (r: Result<AssembledProgram, AssemblyError>)
        requires
            old(self).wf(),
            old(self).code().len() == 0,
            old(self).spec_inputs().len() == 0,
            old(self).spec_outputs().len() == 0,
            all_unlocked(old(self).locked()),
            old(self).storage() == Map::<usize, usize>::empty(),
            old(self).storage_size() == 0,
            forall|i: int| 0 <= i < NUM_REGISTERS ==> #[trigger] old(self).contents()[i] == RegisterContent::Empty,
            forall|i: int| 0 <= i < NUM_REGISTERS ==> !#[trigger] old(self).locked()[i],
        ensures
            r matches Ok(p) ==> assembled_from(p, old(self).program()),
            old(self).program().spec_instructions().len() == 0 && 8 + 4 * (old(self).program().spec_inputs().len()
                + old(self).program().spec_outputs().len()) <= usize::MAX ==> r is Ok,
            r matches Ok(p) ==> code_of_run(p, old(self).program()),
            r is Err ==> 8 + 4 * (old(self).program().spec_inputs().len()
                + old(self).program().spec_outputs().len()) > usize::MAX || stopped_at_unfit(
                old(self).program(),
            ),
    {
        let storage_address_index = self.write_prologue();
        let ghost after_prologue = self.code();
        let source = self.source;
        let inputs = source.borrow_inputs();
        let mut k: usize = 0;
        while k < inputs.len()
            invariant
                k <= inputs@.len(),
                inputs@ == source.spec_inputs(),
                *source == old(self).program(),
                self.wf(),
                self.program() == *source,
                self.io_addressed(k as nat, 0),
                all_unlocked(self.locked()),
                self.code() == after_prologue,
                self.storage_size() >= 8,
                self.storage_size() <= 8 + 4 * k,
                self.contents() == old(self).contents(),
                self.locked() == old(self).locked(),
            decreases inputs@.len() - k,
        {
            let input = inputs[k];
            assert(program_in_range(*source));
            let vtype = source.borrow_variable(input).typ.base;
            let address = self.get_variable_address(input)?;
            self.inputs.push((vtype, address));
            k = k + 1;
        }
        let outputs = source.borrow_outputs();
        let mut k: usize = 0;
        while k < outputs.len()
            invariant
                k <= outputs@.len(),
                outputs@ == source.spec_outputs(),
                *source == old(self).program(),
                self.wf(),
                self.program() == *source,
                self.io_addressed(source.spec_inputs().len(), k as nat),
                all_unlocked(self.locked()),
                self.code() == after_prologue,
                self.storage_size() >= 8,
                self.storage_size() <= 8 + 4 * (source.spec_inputs().len() + k),
                self.contents() == old(self).contents(),
                self.locked() == old(self).locked(),
            decreases outputs@.len() - k,
        {
            let output = outputs[k];
            let vtype = source.borrow_variable(output).typ.base;
            let address = self.get_variable_address(output)?;
            self.outputs.push((vtype, address));
            k = k + 1;
        }
        let ghost io_done = *self;
        assert(self.contents() == old(self).contents());
        let instructions = source.borrow_instructions();
        let ghost mut trace: Seq<AsmState> = seq![self.state()];
        proof {
            assert(after_prologue =~= prologue_bytes());
            assert(self.locked() == old(self).locked());
        }
        let mut k: usize = 0;
        while k < instructions.len()
            invariant
                k <= instructions@.len(),
                instructions@ == source.spec_instructions(),
                *source == old(self).program(),
                self.program() == *source,
                self.extends(&io_done),
                io_done.io_addressed(source.spec_inputs().len(), source.spec_outputs().len()),
                all_unlocked(self.locked()),
                io_done.code() == after_prologue,
                io_done.storage_size() >= 8,
                k == 0 ==> *self == io_done,
                trace_valid(trace, *source, k as int),
                trace[k as int] == self.state(),
            decreases instructions@.len() - k,
        {
            assert(annotated_in_range(instructions@[k as int], source.spec_variables().len()));
            let ghost before = self.state();
            self.assemble_instruction(&instructions[k])?;
            proof {
                let next = trace.push(self.state());
                assert forall|j: int| 0 <= j < k + 1 implies #[trigger] instruction_step(
                    next[j],
                    next[j + 1],
                    source.spec_instructions()[j],
                    *source,
                ) by {
                    if j < k {
                        assert(next[j] == trace[j] && next[j + 1] == trace[j + 1]);
                    }
                }
                trace = next;
            }
            k = k + 1;
        }
        let ghost run_end = self.state();
        // Make sure all outputs are stored to memory.
        let mut k: usize = 0;
        while k < outputs.len()
            invariant
                k <= outputs@.len(),
                outputs@ == source.spec_outputs(),
                *source == old(self).program(),
                self.program() == *source,
                self.extends(&io_done),
                io_done.io_addressed(source.spec_inputs().len(), source.spec_outputs().len()),
                io_done.code() == after_prologue,
                io_done.storage_size() >= 8,
                source.spec_instructions().len() == 0 ==> self.contents() == old(self).contents(),
                forall|i: int|
                    0 <= i < NUM_REGISTERS ==> #[trigger] old(self).contents()[i] == RegisterContent::Empty,
                self.contents() == run_end.contents,
                self.code() == run_end.code + stores_code(
                    run_end.contents,
                    source.spec_outputs().take(k as int),
                    io_done.spec_outputs(),
                ),
            decreases outputs@.len() - k,
        {
            let ghost prev_code = self.code();
            let ghost output = source.spec_outputs()[k as int];
            proof {
                assert(io_done.outputs@[k as int] == io_done.spec_outputs()[k as int]);
                assert(io_done.storage().contains_key(output.0));
                assert(self.storage().contains_key(output.0));
                assert(self.storage()[output.0] == io_done.spec_outputs()[k as int].1);
            }
            let stored = self.store_output(outputs[k]);
            assert(source.spec_instructions().len() == 0 ==> stored is Ok);
            stored?;
            proof {
                assert(source.spec_outputs().take(k + 1).drop_last() =~= source.spec_outputs().take(k as int));
                assert(self.code() =~= run_end.code + stores_code(
                    run_end.contents,
                    source.spec_outputs().take(k + 1),
                    io_done.spec_outputs(),
                ));
            }
            k = k + 1;
        }
        proof {
            assert(source.spec_outputs().take(outputs@.len() as int) =~= source.spec_outputs());
        }
        // Return 0 to report success.
        let ghost before_epilogue = self.code();
        let loaded = self.write_mov_imm32_to_register(Register::A, 0);
        assert(loaded is Ok);
        self.write_restore_rsp_and_return();
        assert(self.code() =~= before_epilogue + epilogue_bytes());
        let ghost done = *self;
        proof {
            self.lemma_assembled(&io_done, before_epilogue);
        }
        let mut code: Vec<u8> = Vec::new();
        std::mem::swap(&mut code, &mut self.target);
        let mut inputs: Vec<(NativeBaseType, usize)> = Vec::new();
        std::mem::swap(&mut inputs, &mut self.inputs);
        let mut outputs: Vec<(NativeBaseType, usize)> = Vec::new();
        std::mem::swap(&mut outputs, &mut self.outputs);
        let program = AssembledProgram {
            code,
            storage_size: self.storage_size,
            storage_address_index,
            inputs,
            outputs,
        };
        assert(program.code@ == done.code());
        assert(program.inputs@ == done.spec_inputs());
        assert(program.outputs@ == done.spec_outputs());
        Ok(program)
    }
}

/// Assembles a specialized program into machine code: the prologue, the
/// code of each instruction in turn, the stores of the outputs and the
/// epilogue. It fails only when the inputs and outputs do not fit in
/// storage, or when the run reaches an instruction that does not fit (too
/// few free registers or too little storage, an operand no register can
/// hold, or an unsupported operator).
pub fn ingest(program: &Program) -> (r: Result<AssembledProgram, AssemblyError>)
    requires
        program_in_range(*program),
    ensures
        r matches Ok(p) ==> assembled_from(p, *program),
        program.spec_instructions().len() == 0 && 8 + 4 * (program.spec_inputs().len()
            + program.spec_outputs().len()) <= usize::MAX ==> r is Ok,
        r matches Ok(p) ==> code_of_run(p, *program),
        r is Err ==> 8 + 4 * (program.spec_inputs().len() + program.spec_outputs().len())
            > usize::MAX || stopped_at_unfit(*program),
{
    let mut assembler = Assembler::new(program);
    assembler.entry_point()
}

} // verus!
