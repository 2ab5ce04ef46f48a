use waveguide::concrete::{
    all_identical, sequence_monotonically_increases, solidify_array_literal, solidify_binary_operation,
    solidify_cast, BinaryOp,
    solidify_input, solidify_literal, ConcreteScalarType, ConcreteType, ConcreteValue, UnaryOp,
};

fn ty(base: ConcreteScalarType, dims: Vec<usize>) -> ConcreteType {
    ConcreteType { base, dims }
}

#[test]
fn flattening_indexes() {
    // Innermost dimension first: 4 wide, 3 tall.
    let t = ty(ConcreteScalarType::Int, vec![4, 3]);
    assert_eq!(t.flatten_index(&[2, 1]), 9);
    assert_eq!(t.flatten_index(&[0, 0]), 0);
    assert_eq!(t.flatten_index(&[2, 3]), 11);
    // Extra outer indexes are ignored.
    assert_eq!(t.flatten_index(&[9, 9, 2, 1]), 9);
    // A dimension of size 1 is broadcast.
    let broadcast = ty(ConcreteScalarType::Int, vec![5, 1]);
    assert_eq!(broadcast.flatten_index(&[7, 3]), 3);
    assert_eq!(t.size(), 12);
    assert_eq!(ty(ConcreteScalarType::Float, vec![]).size(), 1);
}

#[test]
fn monotonic_sequences() {
    assert!(sequence_monotonically_increases(&[5, 6, 7, 8]));
    assert!(sequence_monotonically_increases(&[3]));
    assert!(!sequence_monotonically_increases(&[5, 6, 8]));
    assert!(!sequence_monotonically_increases(&[5, 5]));
    assert!(!sequence_monotonically_increases(&[usize::MAX, 0]));
}

#[test]
fn identical_sequences() {
    assert!(all_identical(&[4, 4, 4]));
    assert!(all_identical(&[1]));
    assert!(all_identical(&[]));
    assert!(!all_identical(&[4, 4, 5]));
}

#[test]
fn combining_scalar_types() {
    assert_eq!(ConcreteScalarType::Bool + ConcreteScalarType::Int, ConcreteScalarType::Int);
    assert_eq!(ConcreteScalarType::Int + ConcreteScalarType::Bool, ConcreteScalarType::Int);
    assert_eq!(ConcreteScalarType::Int + ConcreteScalarType::Float, ConcreteScalarType::Float);
    assert_eq!(ConcreteScalarType::Float + ConcreteScalarType::Bool, ConcreteScalarType::Float);
    assert_eq!(ConcreteScalarType::Bool + ConcreteScalarType::Bool, ConcreteScalarType::Bool);
    assert_eq!((ConcreteScalarType::Bool + ConcreteScalarType::Int) + ConcreteScalarType::Float, ConcreteScalarType::Bool + (ConcreteScalarType::Int + ConcreteScalarType::Float));
}

#[test]
fn input_values() {
    let t = ty(ConcreteScalarType::Float, vec![10]);
    let value = solidify_input(2, &t);
    // 10 scalars: one vector of 8, then 2 scalars.
    let first = value.get_vector(0).unwrap();
    assert!(matches!(*first, ConcreteValue::InputVector { input: 2, position: 0 }));
    assert!(value.get_vector(1).is_none());
    assert!(value.get_vector(8).is_none());
    let lane = value.get_scalar(3);
    match &*lane {
        ConcreteValue::Unvectorize(vector, 3) => {
            assert!(matches!(**vector, ConcreteValue::InputVector { input: 2, position: 0 }))
        }
        _ => panic!("expected a lane of the vector"),
    }
    assert!(matches!(*value.get_scalar(8), ConcreteValue::InputScalar { input: 2, position: 8 }));
    assert!(matches!(*value.get_scalar(9), ConcreteValue::InputScalar { input: 2, position: 9 }));
}

#[test]
fn array_literal_values() {
    let mut items = Vec::new();
    for i in 0..9 {
        items.push(solidify_literal(ConcreteValue::IntLiteral(i)));
    }
    items.push(solidify_literal(ConcreteValue::BoolLiteral(true)));
    let value = solidify_array_literal(&items, &[10]);
    match &*value.get_vector(0).unwrap() {
        ConcreteValue::Vectorize(lanes) => {
            for (i, lane) in lanes.iter().enumerate() {
                assert!(matches!(**lane, ConcreteValue::IntLiteral(v) if v == i as i32));
            }
        }
        _ => panic!("expected a vector"),
    }
    assert!(matches!(*value.get_scalar(8), ConcreteValue::IntLiteral(8)));
    match &*value.get_scalar(9) {
        ConcreteValue::UnaryOp(UnaryOp::BoolToInt, source) => {
            assert!(matches!(**source, ConcreteValue::BoolLiteral(true)))
        }
        _ => panic!("expected a conversion"),
    }
}

#[test]
fn cast_values() {
    let t = ty(ConcreteScalarType::Int, vec![]);
    let value = solidify_literal(ConcreteValue::IntLiteral(3));
    let floats = solidify_cast(&value, &t, &ty(ConcreteScalarType::Float, vec![]));
    match &*floats.get_scalar(0) {
        ConcreteValue::UnaryOp(UnaryOp::IntToFloat, source) => {
            assert!(matches!(**source, ConcreteValue::IntLiteral(3)))
        }
        _ => panic!("expected a conversion"),
    }
    let same = solidify_cast(&value, &t, &t);
    assert!(matches!(*same.get_scalar(0), ConcreteValue::IntLiteral(3)));
}

#[test]
fn vectorized_binary_operations() {
    let t = ty(ConcreteScalarType::Float, vec![8]);
    let lhs = solidify_input(0, &t);
    let rhs = solidify_input(1, &t);
    let sum = solidify_binary_operation(BinaryOp::Add, &lhs, &rhs, ty(ConcreteScalarType::Float, vec![8]));
    match &*sum.get_vector(0).unwrap() {
        ConcreteValue::BinaryOp(BinaryOp::Add, a, b) => {
            assert!(matches!(**a, ConcreteValue::InputVector { input: 0, position: 0 }));
            assert!(matches!(**b, ConcreteValue::InputVector { input: 1, position: 0 }));
        }
        _ => panic!("expected a vector operation"),
    }
    // A scalar is duplicated into every lane.
    let two = solidify_literal(ConcreteValue::FloatLiteral(2.0f32.to_bits()));
    let scaled = solidify_binary_operation(BinaryOp::Mul, &lhs, &two, ty(ConcreteScalarType::Float, vec![8]));
    match &*scaled.get_vector(0).unwrap() {
        ConcreteValue::BinaryOp(BinaryOp::Mul, a, b) => {
            assert!(matches!(**a, ConcreteValue::InputVector { input: 0, position: 0 }));
            match &**b {
                ConcreteValue::VectorizeByDuplication(scalar) => {
                    assert!(matches!(**scalar, ConcreteValue::FloatLiteral(bits) if bits == 2.0f32.to_bits()))
                }
                _ => panic!("expected a duplicated scalar"),
            }
        }
        _ => panic!("expected a vector operation"),
    }
}
