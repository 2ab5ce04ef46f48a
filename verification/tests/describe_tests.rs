use waveguide::resolved::ingest::data_type::DataType as VagueType;
use waveguide::resolved::structure::{BaseType, BinaryOperator, DataType as ResolvedType, UnaryOperator};
use waveguide::shared::{NativeBaseType, NativeType};

#[test]
fn native_type_names() {
    assert_eq!(NativeBaseType::F32.name(), "f32");
    assert_eq!(NativeBaseType::I32.name(), "i32");
    assert_eq!(NativeBaseType::B8.name(), "b8");
    assert_eq!(NativeType::array(NativeBaseType::I32, vec![2, 3]).describe(), "[2][3]i32");
    assert_eq!(NativeType::array(NativeBaseType::F32, vec![0, 10, 1234]).describe(), "[0][10][1234]f32");
    assert_eq!(NativeType::bool_scalar().describe(), "b8");
}

#[test]
fn vague_type_names() {
    assert_eq!(VagueType::make_array(&[5, 2], VagueType::Int).describe(), "[5][2]INT");
    assert_eq!(VagueType::Automatic.describe(), "AUTO");
    assert_eq!(VagueType::DataType.describe(), "DATA_TYPE");
}

#[test]
fn operator_symbols() {
    assert_eq!(BinaryOperator::Power.symbol(), "**");
    assert_eq!(BinaryOperator::IntDiv.symbol(), "//");
    assert_eq!(BinaryOperator::GreaterThanOrEqual.symbol(), ">=");
    assert_eq!(BinaryOperator::BXor.symbol(), "bxor");
    assert_eq!(UnaryOperator::Reciprocal.symbol(), "reciprocal of");
    assert_eq!(UnaryOperator::Negate.symbol(), "-");
}

#[test]
fn resolved_type_names() {
    assert_eq!(BaseType::Bool.name(), "Bool");
    assert_eq!(ResolvedType::array(BaseType::Int, vec![5, 2]).describe(), "[5][2]Int");
    assert_eq!(ResolvedType::scalar(BaseType::Float).describe(), "Float");
}
