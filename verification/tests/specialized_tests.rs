use waveguide::shared::{NativeData, NativeType, NativeVar, ProxyMode};
use waveguide::specialized::general::{Index, Value, VariableId};
use waveguide::specialized::x86_64::structure::{BinaryOperator, Condition, Instruction, Program};

fn var(id: VariableId) -> Value {
    Value::VariableAccess { variable: id, proxy: vec![], indexes: vec![] }
}

#[test]
fn liveness_of_a_chain() {
    let mut program = Program::new();
    let a = program.adopt_variable(NativeVar::new(NativeType::int_scalar()));
    let t = program.adopt_variable(NativeVar::new(NativeType::int_scalar()));
    let x = program.adopt_variable(NativeVar::new(NativeType::int_scalar()));
    assert_eq!((a.0, t.0, x.0), (0, 1, 2));
    program.add_input(a);
    program.add_output(x);
    // t = a + a; x = t * a
    program.add_instruction(Instruction::BinaryOperation { op: BinaryOperator::AddI, a: var(a), b: var(a), x: var(t) });
    program.add_instruction(Instruction::BinaryOperation { op: BinaryOperator::MulI, a: var(t), b: var(a), x: var(x) });
    program.complete_liveness_analysis();
    let instructions = program.borrow_instructions();
    assert_eq!(instructions.len(), 2);
    // t is written by the first instruction and read by the second.
    assert_eq!(instructions[0].births, vec![t]);
    assert_eq!(instructions[0].kills, Vec::<VariableId>::new());
    // a and t are last read by the second instruction; x is an output.
    assert_eq!(instructions[1].kills, vec![a, t]);
    assert_eq!(instructions[1].births, Vec::<VariableId>::new());
    assert_eq!(program.borrow_inputs(), &vec![a]);
    assert_eq!(program.borrow_outputs(), &vec![x]);
}

#[test]
fn overwritten_variable_dies_at_its_read() {
    let mut program = Program::new();
    let a = program.adopt_variable(NativeVar::new(NativeType::int_scalar()));
    let b = program.adopt_variable(NativeVar::new(NativeType::int_scalar()));
    // b = a; a = b
    program.add_instruction(Instruction::Move { from: var(a), to: var(b) });
    program.add_instruction(Instruction::Move { from: var(b), to: var(a) });
    program.complete_liveness_analysis();
    let instructions = program.borrow_instructions();
    // a is read by the first instruction and then written by the second.
    assert_eq!(instructions[0].kills, vec![a]);
    assert_eq!(instructions[0].births, vec![b]);
    assert_eq!(instructions[1].kills, vec![b]);
}

#[test]
fn labels_are_numbered() {
    let mut program = Program::new();
    assert_eq!(program.create_label().0, 0);
    assert_eq!(program.create_label().0, 1);
}

#[test]
fn condition_codes() {
    assert_eq!(Condition::LessThan.code(), 0xC);
    assert_eq!(Condition::GreaterThan.code(), 0xF);
    assert_eq!(Condition::LessThanOrEqual.code(), 0xE);
    assert_eq!(Condition::GreaterThanOrEqual.code(), 0xD);
    assert_eq!(Condition::Equal.code(), 0x4);
    assert_eq!(Condition::NotEqual.code(), 0x5);
}

#[test]
fn accessing_elements() {
    let v = VariableId(3);
    let plain = Value::VariableAccess { variable: v, proxy: vec![], indexes: vec![Index::Constant(1)] };
    match plain.access_element(&[4, 5]) {
        Value::VariableAccess { variable, proxy, indexes } => {
            assert_eq!(variable, v);
            assert!(proxy.is_empty());
            assert_eq!(indexes, vec![Index::Constant(1), Index::Constant(4), Index::Constant(5)]);
        }
        _ => panic!("expected a variable access"),
    }
    let proxied = Value::VariableAccess {
        variable: v,
        proxy: vec![ProxyMode::Keep, ProxyMode::Discard, ProxyMode::Collapse, ProxyMode::Keep],
        indexes: vec![],
    };
    match proxied.access_element(&[7, 8, 9]) {
        Value::VariableAccess { proxy, indexes, .. } => {
            assert_eq!(proxy, vec![ProxyMode::Keep]);
            assert_eq!(indexes, vec![Index::Constant(7), Index::Constant(0)]);
        }
        _ => panic!("expected a variable access"),
    }
    let literal = Value::Literal(NativeData::Int(4));
    assert!(matches!(literal.access_element(&[]), Value::Literal(NativeData::Int(4))));
    assert!(literal.borrow_proxy().is_none());
    assert_eq!(proxied.borrow_proxy().unwrap().len(), 4);
}

#[test]
fn operand_types() {
    let mut program = Program::new();
    let a = program.adopt_variable(NativeVar::new(NativeType::array(waveguide::shared::NativeBaseType::F32, vec![2, 3])));
    let element = Value::VariableAccess { variable: a, proxy: vec![], indexes: vec![Index::Constant(1)] };
    let t = element.get_type(&program);
    assert_eq!(t.borrow_dimensions(), &vec![3]);
    assert!(t.is_float());
    assert!(Value::Literal(NativeData::Bool(true)).get_type(&program).is_scalar());
}
