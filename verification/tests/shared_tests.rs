use waveguide::shared::labels::LabelStorage;
use waveguide::shared::{apply_proxy_to_index, NativeBaseType, NativeData, NativeType, NativeVar, ProxyMode};

#[test]
fn proxy_keeps_discards_and_collapses() {
    let proxy = vec![(3, ProxyMode::Keep), (4, ProxyMode::Discard), (5, ProxyMode::Collapse)];
    assert_eq!(apply_proxy_to_index(&proxy, &[2, 3, 4]), vec![2, 0]);
    let all_kept = vec![(3, ProxyMode::Keep), (4, ProxyMode::Keep)];
    assert_eq!(apply_proxy_to_index(&all_kept, &[1, 2]), vec![1, 2]);
    assert_eq!(apply_proxy_to_index(&[], &[]), Vec::<usize>::new());
}

#[test]
fn proxy_mode_symbols() {
    assert_eq!(ProxyMode::Keep.symbol(), "");
    assert_eq!(ProxyMode::Discard.symbol(), ">X");
    assert_eq!(ProxyMode::Collapse.symbol(), ">1");
}

#[test]
fn labels_remember_their_flags() {
    let mut labels = LabelStorage::new();
    let first = labels.create_label(true);
    let second = labels.create_label(false);
    assert_eq!(first.0, 0);
    assert_eq!(second.0, 1);
    assert!(labels.is_label_single_source(first));
    assert!(!labels.is_label_single_source(second));
}

#[test]
fn native_sizes() {
    assert_eq!(NativeBaseType::F32.get_physical_size(), 4);
    assert_eq!(NativeBaseType::I32.get_physical_size(), 4);
    assert_eq!(NativeBaseType::B8.get_physical_size(), 1);
    let array = NativeType::array(NativeBaseType::I32, vec![2, 3]);
    assert_eq!(array.get_physical_size(), 24);
    assert!(array.is_array());
    assert!(array.is_int());
    assert!(!array.is_float());
    let bools = NativeType::array(NativeBaseType::B8, vec![5]);
    assert_eq!(bools.get_physical_size(), 5);
    let empty = NativeType::array(NativeBaseType::F32, vec![0, 7]);
    assert_eq!(empty.get_physical_size(), 0);
    assert!(NativeType::float_scalar().is_scalar());
    assert_eq!(NativeType::float_scalar().get_physical_size(), 4);
    let var = NativeVar::new(array.clone());
    assert_eq!(var.get_physical_size(), 24);
    assert_eq!(var.borrow_dimensions(), &vec![2, 3]);
}

#[test]
fn unwrapping_native_types() {
    let array = NativeType::array(NativeBaseType::F32, vec![2, 3, 4]);
    let inner = array.clone_and_unwrap(1);
    assert_eq!(inner.borrow_dimensions(), &vec![3, 4]);
    assert_eq!(inner.get_base(), NativeBaseType::F32);
    assert!(array.clone_and_unwrap(3).is_scalar());
}

#[test]
fn native_data_bits() {
    assert_eq!(NativeData::Bool(true).binary_data(), 1);
    assert_eq!(NativeData::Bool(false).binary_data(), 0);
    assert_eq!(NativeData::Int(-1).binary_data(), 0xFFFF_FFFF);
    assert_eq!(NativeData::Int(0x1_0000_0005).binary_data(), 5);
    assert_eq!(NativeData::Float(1.5f32.to_bits()).binary_data(), 1.5f32.to_bits());
    assert!(NativeData::Int(3).get_type().is_int());
    assert!(NativeData::Float(0).get_type().is_float());
    assert_eq!(NativeData::Bool(true).get_type().get_base(), NativeBaseType::B8);
}
