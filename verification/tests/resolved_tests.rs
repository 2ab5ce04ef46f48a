use waveguide::resolved::ingest::data_type::DataType as VagueType;
use waveguide::resolved::ingest::known_data::{BinaryOperator, KnownData};
use waveguide::resolved::ingest::util::{
    biggest_scalar, biggest_type, compute_binary_operation, compute_binary_operation_impl, inflate, resolve_known_data,
    resolve_operator,
};
use waveguide::resolved::structure::known_data::KnownData as ResolvedData;
use waveguide::resolved::structure::{BaseType, BinaryOperator as ResolvedOperator, DataType};
use waveguide::shared::ProxyMode;

fn int_data(v: i64) -> KnownData {
    KnownData::Int(v)
}

fn ints(vs: &[i64]) -> KnownData {
    KnownData::Array(vs.iter().map(|v| KnownData::Int(*v)).collect())
}

fn as_ints(d: &KnownData) -> Vec<i64> {
    match d {
        KnownData::Array(items) => items
            .iter()
            .map(|i| match i {
                KnownData::Int(v) => *v,
                _ => panic!("not an int"),
            })
            .collect(),
        _ => panic!("not an array"),
    }
}

#[test]
fn integer_arithmetic() {
    assert!(matches!(compute_binary_operation(&int_data(2), BinaryOperator::Add, &int_data(3)), KnownData::Int(5)));
    assert!(matches!(compute_binary_operation(&int_data(2), BinaryOperator::Subtract, &int_data(3)), KnownData::Int(-1)));
    assert!(matches!(compute_binary_operation(&int_data(6), BinaryOperator::Multiply, &int_data(7)), KnownData::Int(42)));
    assert!(matches!(compute_binary_operation(&int_data(-7), BinaryOperator::Divide, &int_data(2)), KnownData::Int(-3)));
    assert!(matches!(compute_binary_operation(&int_data(-7), BinaryOperator::Modulo, &int_data(2)), KnownData::Int(-1)));
    assert!(matches!(compute_binary_operation(&int_data(2), BinaryOperator::Power, &int_data(10)), KnownData::Int(1024)));
    assert!(matches!(compute_binary_operation(&int_data(5), BinaryOperator::Power, &int_data(0)), KnownData::Int(1)));
    assert!(matches!(compute_binary_operation(&int_data(12), BinaryOperator::BAnd, &int_data(10)), KnownData::Int(8)));
    assert!(matches!(compute_binary_operation(&int_data(12), BinaryOperator::BOr, &int_data(10)), KnownData::Int(14)));
    assert!(matches!(compute_binary_operation(&int_data(12), BinaryOperator::BXor, &int_data(10)), KnownData::Int(6)));
}

#[test]
fn comparisons_and_logic() {
    assert!(matches!(compute_binary_operation(&int_data(2), BinaryOperator::LessThan, &int_data(3)), KnownData::Bool(true)));
    assert!(matches!(compute_binary_operation(&int_data(3), BinaryOperator::GreaterThanOrEqual, &int_data(3)), KnownData::Bool(true)));
    assert!(matches!(compute_binary_operation(&int_data(3), BinaryOperator::Equal, &int_data(4)), KnownData::Bool(false)));
    assert!(matches!(compute_binary_operation(&int_data(3), BinaryOperator::NotEqual, &int_data(4)), KnownData::Bool(true)));
    let t = KnownData::Bool(true);
    let f = KnownData::Bool(false);
    assert!(matches!(compute_binary_operation(&t, BinaryOperator::And, &f), KnownData::Bool(false)));
    assert!(matches!(compute_binary_operation(&f, BinaryOperator::Or, &t), KnownData::Bool(true)));
    assert!(matches!(compute_binary_operation(&t, BinaryOperator::Xor, &t), KnownData::Bool(false)));
    // Short circuit: the right side is not looked at.
    assert!(matches!(compute_binary_operation(&f, BinaryOperator::And, &int_data(1)), KnownData::Bool(false)));
    assert!(matches!(compute_binary_operation(&t, BinaryOperator::Or, &int_data(1)), KnownData::Bool(true)));
}

#[test]
fn arrays_combine_item_by_item() {
    let sum = compute_binary_operation(&ints(&[1, 2, 3]), BinaryOperator::Add, &ints(&[10, 20, 30]));
    assert_eq!(as_ints(&sum), vec![11, 22, 33]);
    let stretched = compute_binary_operation(&ints(&[1, 2, 3]), BinaryOperator::Add, &ints(&[10]));
    assert_eq!(as_ints(&stretched), vec![11, 12, 13]);
    let stretched_left = compute_binary_operation(&ints(&[2]), BinaryOperator::Multiply, &ints(&[1, 2, 3]));
    assert_eq!(as_ints(&stretched_left), vec![2, 4, 6]);
    let scalar = compute_binary_operation(&ints(&[1, 2, 3]), BinaryOperator::Multiply, &int_data(3));
    assert_eq!(as_ints(&scalar), vec![3, 6, 9]);
    let scalar_left = compute_binary_operation(&int_data(10), BinaryOperator::Subtract, &ints(&[1, 2]));
    assert_eq!(as_ints(&scalar_left), vec![9, 8]);
}

#[test]
fn array_comparisons_are_item_by_item() {
    match compute_binary_operation(&ints(&[1, 2]), BinaryOperator::Equal, &ints(&[1, 3])) {
        KnownData::Array(items) => {
            assert_eq!(items.len(), 2);
            assert!(matches!(items[0], KnownData::Bool(true)));
            assert!(matches!(items[1], KnownData::Bool(false)));
        }
        _ => panic!("expected an array"),
    }
}

#[test]
fn whole_array_equality() {
    let eq = compute_binary_operation_impl(&ints(&[1, 2]), BinaryOperator::Equal, &ints(&[1, 2]));
    assert!(matches!(eq, KnownData::Bool(true)));
    let ne = compute_binary_operation_impl(&ints(&[1, 2]), BinaryOperator::NotEqual, &ints(&[1, 3]));
    assert!(matches!(ne, KnownData::Bool(true)));
}

#[test]
fn known_data_equality_and_copies() {
    let a = ints(&[1, 2, 3]);
    let copy = a.duplicate();
    assert!(a.equals(&copy));
    assert!(!a.equals(&ints(&[1, 2])));
    assert!(!int_data(1).equals(&KnownData::Bool(true)));
}

#[test]
fn resolving_known_data() {
    match resolve_known_data(&ints(&[4, 5])) {
        Ok(ResolvedData::Array(items)) => {
            assert_eq!(items.len(), 2);
            assert!(matches!(items[0], ResolvedData::Int(4)));
            assert!(matches!(items[1], ResolvedData::Int(5)));
        }
        _ => panic!("expected an array"),
    }
    assert!(resolve_known_data(&KnownData::Unknown).is_err());
    assert!(resolve_known_data(&KnownData::Void).is_err());
    assert!(resolve_known_data(&KnownData::Array(vec![KnownData::Unknown])).is_err());
    assert!(matches!(resolve_known_data(&KnownData::Bool(true)), Ok(ResolvedData::Bool(true))));
}

#[test]
fn resolving_operators() {
    assert_eq!(resolve_operator(BinaryOperator::Add), ResolvedOperator::Add);
    assert_eq!(resolve_operator(BinaryOperator::Power), ResolvedOperator::Power);
    assert_eq!(resolve_operator(BinaryOperator::GreaterThanOrEqual), ResolvedOperator::GreaterThanOrEqual);
}

#[test]
fn vague_types() {
    let t = VagueType::make_array(&[5, 2], VagueType::Int);
    assert_eq!(t, VagueType::Array(5, Box::new(VagueType::Array(2, Box::new(VagueType::Int)))));
    assert_eq!(t.collect_dims(), vec![5, 2]);
    assert!(!t.is_automatic());
    assert!(VagueType::make_array(&[3], VagueType::Automatic).is_automatic());
    let floats = t.with_different_base(VagueType::Float);
    assert_eq!(floats.collect_dims(), vec![5, 2]);
    assert_eq!(floats.base_type(), VagueType::Float);
    let resolved = t.resolve().unwrap();
    assert_eq!(resolved.borrow_base(), &BaseType::Int);
    assert_eq!(resolved.borrow_dimensions(), &vec![(5, ProxyMode::Keep), (2, ProxyMode::Keep)]);
    assert!(VagueType::Void.resolve().is_none());
    assert!(VagueType::Automatic.resolve().is_none());
}

#[test]
fn biggest_types() {
    let a = VagueType::make_array(&[3], VagueType::Int);
    let b = VagueType::make_array(&[1, 4], VagueType::Int);
    assert_eq!(biggest_type(&a, &b), Ok(VagueType::make_array(&[3, 4], VagueType::Int)));
    assert_eq!(biggest_type(&b, &a), Ok(VagueType::make_array(&[3, 4], VagueType::Int)));
    assert_eq!(biggest_type(&a, &VagueType::Int), Ok(VagueType::make_array(&[3], VagueType::Int)));
    assert_eq!(biggest_type(&VagueType::Automatic, &b), Ok(b.duplicate()));
    assert_eq!(biggest_type(&a, &a), Ok(a.duplicate()));
    let c = VagueType::make_array(&[2], VagueType::Int);
    assert_eq!(biggest_type(&a, &c), Err(()));
    assert_eq!(biggest_type(&VagueType::Int, &VagueType::Float), Err(()));
    assert_eq!(biggest_scalar(&VagueType::Int, &VagueType::Int), Ok(VagueType::Int));
    assert_eq!(biggest_scalar(&VagueType::Int, &VagueType::Bool), Err(()));
}

#[test]
fn inflating_types() {
    let from = VagueType::make_array(&[1, 4], VagueType::Int);
    let to = VagueType::make_array(&[3, 4, 5], VagueType::Int);
    assert_eq!(
        inflate(&from, &to),
        vec![(3, ProxyMode::Collapse), (4, ProxyMode::Keep), (5, ProxyMode::Discard)]
    );
}

#[test]
fn resolved_data_types() {
    let mut t = DataType::scalar(BaseType::Int);
    assert!(t.is_scalar());
    assert!(t.is_specific_scalar(&BaseType::Int));
    t.wrap_with_dimension(2);
    t.wrap_with_dimension(5);
    assert_eq!(t.borrow_dimensions(), &vec![(5, ProxyMode::Keep), (2, ProxyMode::Keep)]);
    assert!(t.is_array());
    let inner = t.clone_and_unwrap(1);
    assert_eq!(inner.borrow_dimensions(), &vec![(2, ProxyMode::Keep)]);
    let same = DataType::array(BaseType::Int, vec![5, 2]);
    assert!(t.equivalent(&same));
    assert!(!t.equivalent(&DataType::array(BaseType::Float, vec![5, 2])));
    assert!(BaseType::Float.equivalent(&BaseType::Float));
    assert!(BaseType::Bool.to_scalar_type().is_scalar());
    assert_eq!(BaseType::Int.to_array_type(vec![7]).borrow_dimensions(), &vec![(7, ProxyMode::Keep)]);
}

#[test]
fn wrapping_with_dimensions_adds_outermost() {
    let mut t = DataType::array(BaseType::Int, vec![2, 2]);
    t.wrap_with_dimensions(vec![5, 4, 3]);
    assert_eq!(t, DataType::array(BaseType::Int, vec![5, 4, 3, 2, 2]));
    assert_eq!(t.describe(), "[5][4][3][2][2]Int");
}

#[test]
fn simple_variables() {
    let v = waveguide::simple::structure::Variable::integer();
    assert_eq!(*v.borrow_data_type(), DataType::scalar(BaseType::Int));
    let f = waveguide::simple::structure::Variable::float();
    assert_eq!(f.borrow_data_type().describe(), "Float");
    let b = waveguide::simple::structure::Variable::bool();
    assert_eq!(b.borrow_data_type().describe(), "Bool");
    let a = waveguide::simple::structure::Variable::new(DataType::array(BaseType::Int, vec![3]));
    assert_eq!(a.borrow_data_type().describe(), "[3]Int");
    assert_eq!(waveguide::simple::structure::ScopeId(2), waveguide::simple::structure::ScopeId(2));
}
