use waveguide::native::x86_64::{ingest, AssemblyError};
use waveguide::shared::{NativeData, NativeType, NativeVar};
use waveguide::specialized::general::{Value, VariableId};
use waveguide::specialized::x86_64::structure::{BinaryOperator, Condition, Instruction, Program};
use waveguide::shared::NativeBaseType;

fn var(id: VariableId) -> Value {
    Value::VariableAccess { variable: id, proxy: vec![], indexes: vec![] }
}

fn prologue() -> Vec<u8> {
    vec![
        0x53, 0x55, 0x41, 0x54, 0x41, 0x55, 0x41, 0x56, 0x41, 0x57, 0x48, 0xbd, 0, 0, 0, 0, 0, 0,
        0, 0, 0x48, 0x89, 0x65, 0x00, 0x48, 0x83, 0x6d, 0x00, 0x08, 0xe8, 0x0b, 0, 0, 0, 0x41,
        0x5f, 0x41, 0x5e, 0x41, 0x5d, 0x41, 0x5c, 0x5d, 0x5b, 0xc3,
    ]
}

fn epilogue() -> Vec<u8> {
    vec![0xb8, 0, 0, 0, 0, 0x48, 0x8b, 0x65, 0x00, 0xc3]
}

#[test]
fn move_from_input_to_output() {
    let mut program = Program::new();
    let a = program.adopt_variable(NativeVar::new(NativeType::int_scalar()));
    let x = program.adopt_variable(NativeVar::new(NativeType::int_scalar()));
    program.add_input(a);
    program.add_output(x);
    program.add_instruction(Instruction::Move { from: var(a), to: var(x) });
    program.complete_liveness_analysis();
    let assembled = ingest(&program).unwrap();
    let mut expected = prologue();
    // mov ecx, [rbp + 8]
    expected.extend_from_slice(&[0x8b, 0x8d, 8, 0, 0, 0]);
    // mov [rbp + 12], ecx
    expected.extend_from_slice(&[0x89, 0x8d, 12, 0, 0, 0]);
    expected.extend_from_slice(&epilogue());
    assert_eq!(assembled.code, expected);
    assert_eq!(assembled.storage_address_index, 12);
    assert_eq!(assembled.storage_size, 16);
    assert_eq!(assembled.inputs, vec![(NativeBaseType::I32, 8)]);
    assert_eq!(assembled.outputs, vec![(NativeBaseType::I32, 12)]);
}

#[test]
fn integer_addition() {
    let mut program = Program::new();
    let a = program.adopt_variable(NativeVar::new(NativeType::int_scalar()));
    let b = program.adopt_variable(NativeVar::new(NativeType::int_scalar()));
    let x = program.adopt_variable(NativeVar::new(NativeType::int_scalar()));
    program.add_input(a);
    program.add_input(b);
    program.add_output(x);
    program.add_instruction(Instruction::BinaryOperation {
        op: BinaryOperator::AddI,
        a: var(a),
        b: var(b),
        x: var(x),
    });
    program.complete_liveness_analysis();
    let assembled = ingest(&program).unwrap();
    let mut expected = prologue();
    expected.extend_from_slice(&[0x8b, 0x8d, 8, 0, 0, 0]);
    expected.extend_from_slice(&[0x8b, 0x9d, 12, 0, 0, 0]);
    // add ecx, ebx
    expected.extend_from_slice(&[0x01, 0xd9]);
    expected.extend_from_slice(&[0x89, 0x8d, 16, 0, 0, 0]);
    expected.extend_from_slice(&epilogue());
    assert_eq!(assembled.code, expected);
    assert_eq!(assembled.storage_size, 20);
    assert_eq!(assembled.inputs, vec![(NativeBaseType::I32, 8), (NativeBaseType::I32, 12)]);
    assert_eq!(assembled.outputs, vec![(NativeBaseType::I32, 16)]);
}

#[test]
fn same_variable_same_slot() {
    let mut program = Program::new();
    let a = program.adopt_variable(NativeVar::new(NativeType::int_scalar()));
    program.add_input(a);
    program.add_output(a);
    program.complete_liveness_analysis();
    let assembled = ingest(&program).unwrap();
    assert_eq!(assembled.inputs, vec![(NativeBaseType::I32, 8)]);
    assert_eq!(assembled.outputs, vec![(NativeBaseType::I32, 8)]);
    assert_eq!(assembled.storage_size, 12);
}

#[test]
fn assertion_code() {
    let mut program = Program::new();
    program.add_instruction(Instruction::Assert(Condition::Equal));
    program.complete_liveness_analysis();
    let assembled = ingest(&program).unwrap();
    let mut expected = prologue();
    expected.extend_from_slice(&[0x74, 10, 0xb8, 1, 0, 0, 0, 0x48, 0x8b, 0x65, 0x00, 0xc3]);
    expected.extend_from_slice(&epilogue());
    assert_eq!(assembled.code, expected);
}

#[test]
fn unsupported_operator() {
    let mut program = Program::new();
    let a = program.adopt_variable(NativeVar::new(NativeType::int_scalar()));
    program.add_instruction(Instruction::BinaryOperation {
        op: BinaryOperator::BAnd,
        a: var(a),
        b: var(a),
        x: var(a),
    });
    program.complete_liveness_analysis();
    assert!(matches!(ingest(&program), Err(AssemblyError::UnsupportedOperator)));
}

#[test]
fn float_constants_cannot_be_loaded() {
    let mut program = Program::new();
    let x = program.adopt_variable(NativeVar::new(NativeType::float_scalar()));
    program.add_output(x);
    program.add_instruction(Instruction::Move {
        from: Value::Literal(NativeData::Float(2.0f32.to_bits())),
        to: var(x),
    });
    program.complete_liveness_analysis();
    assert!(matches!(ingest(&program), Err(AssemblyError::XmmImmediate)));
}

#[test]
fn bool_variables_have_no_register() {
    let mut program = Program::new();
    let a = program.adopt_variable(NativeVar::new(NativeType::bool_scalar()));
    let x = program.adopt_variable(NativeVar::new(NativeType::bool_scalar()));
    program.add_instruction(Instruction::Move { from: var(a), to: var(x) });
    program.complete_liveness_analysis();
    assert!(matches!(ingest(&program), Err(AssemblyError::UnsupportedType)));
}

#[test]
fn integer_constant_in_register() {
    let mut program = Program::new();
    let x = program.adopt_variable(NativeVar::new(NativeType::int_scalar()));
    program.add_output(x);
    program.add_instruction(Instruction::Move { from: Value::Literal(NativeData::Int(0x01020304)), to: var(x) });
    program.complete_liveness_analysis();
    let assembled = ingest(&program).unwrap();
    let mut expected = prologue();
    // mov ecx, 0x01020304
    expected.extend_from_slice(&[0xb9, 0x04, 0x03, 0x02, 0x01]);
    expected.extend_from_slice(&[0x89, 0x8d, 8, 0, 0, 0]);
    expected.extend_from_slice(&epilogue());
    assert_eq!(assembled.code, expected);
}

#[test]
fn placing_the_storage_address() {
    let mut code = vec![0u8; 20];
    waveguide::native::x86_64::encoding::place_le_u64(&mut code, 12, 0x1122334455667788);
    assert_eq!(&code[12..20], &[0x88, 0x77, 0x66, 0x55, 0x44, 0x33, 0x22, 0x11]);
    assert_eq!(&code[0..12], &[0u8; 12]);
}

#[test]
fn little_endian_bytes() {
    let mut out = vec![0xAAu8];
    waveguide::native::x86_64::encoding::push_le_bytes(&mut out, 0x0102030405060708, 4);
    assert_eq!(out, vec![0xAA, 0x08, 0x07, 0x06, 0x05]);
}
