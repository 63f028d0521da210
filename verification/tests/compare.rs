//! Comparison kernels on concrete arrays and scalars.

use columnar_ipc::array::binary::BinaryArray;
use columnar_ipc::array::boolean::BooleanArray;
use columnar_ipc::array::dictionary::DictionaryArray;
use columnar_ipc::array::primitive::PrimitiveArray;
use columnar_ipc::array::Array;
use columnar_ipc::bitmap::Bitmap;
use columnar_ipc::comparison::{
    can_eq, can_gt_scalar, can_lt, can_partial_eq_and_ord_scalar, eq, eq_and_validity, eq_scalar,
    gt, gt_eq, lt, lt_eq, lt_scalar, neq, neq_and_validity, neq_scalar, Scalar,
};
use columnar_ipc::datatypes::{DataType, IntKind};

fn ints(values: Vec<i128>, validity: Option<Vec<bool>>) -> Array {
    let v = validity.map(Bitmap::new);
    Array::Primitive(PrimitiveArray::try_new(DataType::Int32, values, v).unwrap())
}

fn texts(parts: &[&str]) -> Array {
    let mut offsets = vec![0i64];
    let mut data = Vec::new();
    for p in parts {
        data.extend_from_slice(p.as_bytes());
        offsets.push(data.len() as i64);
    }
    Array::Binary(BinaryArray::try_new(DataType::Utf8, offsets, data, None).unwrap())
}

fn bools(a: &BooleanArray) -> Vec<bool> {
    let mut out = Vec::new();
    for i in 0..a.len() {
        out.push(a.value(i));
    }
    out
}

#[test]
fn eq_merges_validities() {
    let a = ints(vec![1, 2, 3], Some(vec![true, false, true]));
    let b = ints(vec![1, 5, 3], None);
    let r = eq(&a, &b);
    assert_eq!(bools(&r), vec![true, false, true]);
    let v = r.validity().as_ref().unwrap();
    assert!(v.get(0));
    assert!(!v.get(1));
    assert!(v.get(2));
}

#[test]
fn ordering_on_integers() {
    let a = ints(vec![1, 5, 3], None);
    let b = ints(vec![2, 5, 1], None);
    assert_eq!(bools(&lt(&a, &b)), vec![true, false, false]);
    assert_eq!(bools(&lt_eq(&a, &b)), vec![true, true, false]);
    assert_eq!(bools(&gt(&a, &b)), vec![false, false, true]);
    assert_eq!(bools(&gt_eq(&a, &b)), vec![false, true, true]);
    assert_eq!(bools(&neq(&a, &b)), vec![true, false, true]);
}

#[test]
fn ordering_on_text_is_lexicographic() {
    let a = texts(&["abc", "b", ""]);
    let b = texts(&["abd", "b", "a"]);
    assert_eq!(bools(&lt(&a, &b)), vec![true, false, true]);
    assert_eq!(bools(&eq(&a, &b)), vec![false, true, false]);
    assert_eq!(bools(&gt_eq(&a, &b)), vec![false, true, false]);
}

#[test]
fn eq_and_validity_folds_validity() {
    let a = ints(vec![1, 2, 9], Some(vec![true, false, true]));
    let b = ints(vec![1, 2, 9], Some(vec![true, true, true]));
    let r = eq_and_validity(&a, &b);
    // element one compares equal on values but the validities disagree
    assert_eq!(bools(&r), vec![true, false, true]);
    assert!(r.validity().is_none());
    let n = neq_and_validity(&a, &b);
    assert_eq!(bools(&n), vec![false, true, false]);
}

#[test]
fn scalar_comparisons() {
    let a = ints(vec![1, 7, 4], Some(vec![true, true, false]));
    let s = Scalar::Primitive { data_type: DataType::Int32, value: Some(4) };
    let r = eq_scalar(&a, &s);
    assert_eq!(bools(&r), vec![false, false, true]);
    // the operand's validity carries over
    let v = r.validity().as_ref().unwrap();
    assert!(v.get(0) && v.get(1) && !v.get(2));
    let r = lt_scalar(&a, &s);
    assert_eq!(bools(&r), vec![true, false, false]);
    // a null scalar yields an all-null result
    let null_s = Scalar::Primitive { data_type: DataType::Int32, value: None };
    let r = neq_scalar(&a, &null_s);
    let v = r.validity().as_ref().unwrap();
    assert!(!v.get(0) && !v.get(1) && !v.get(2));
}

#[test]
fn scalar_comparison_through_dictionary() {
    let values = PrimitiveArray::try_new(DataType::Int32, vec![10, 20], None).unwrap();
    let keys = PrimitiveArray::try_new(DataType::Int32, vec![1, 0, 1], None).unwrap();
    let dict = DictionaryArray::try_new(
        DataType::Dictionary(IntKind::Int32, Box::new(DataType::Int32)),
        keys,
        Box::new(Array::Primitive(values)),
    )
    .unwrap();
    let s = Scalar::Primitive { data_type: DataType::Int32, value: Some(20) };
    let r = eq_scalar(&Array::Dictionary(dict), &s);
    assert_eq!(bools(&r), vec![true, false, true]);
}

#[test]
fn supported_types() {
    assert!(can_eq(&DataType::Int8));
    assert!(can_eq(&DataType::Utf8));
    assert!(can_lt(&DataType::Boolean));
    assert!(!can_eq(&DataType::List(Box::new(columnar_ipc::datatypes::Field {
        data_type: DataType::Int32,
        is_nullable: true,
    }))));
    assert!(!can_lt(&DataType::FixedSizeBinary(3)));
    // scalar support reaches through a dictionary
    assert!(can_gt_scalar(&DataType::Dictionary(IntKind::Int16, Box::new(DataType::Utf8))));
    assert!(can_partial_eq_and_ord_scalar(&DataType::Dictionary(
        IntKind::Int8,
        Box::new(DataType::Int64),
    )));
}
