//! The array constructors and accessors on concrete values.

use columnar_ipc::array::struct_::StructArray;
use columnar_ipc::array::{new_empty_array, new_null_array, Array};
use columnar_ipc::bitmap::Bitmap;
use columnar_ipc::datatypes::{DataType, Field, IntKind};
use columnar_ipc::dictionaries::Dictionaries;
use columnar_ipc::error::DecodeError;

fn plain_field(data_type: DataType) -> Field {
    Field { data_type, is_nullable: true }
}

#[test]
fn struct_array_builds_and_deconstructs() {
    let a = new_null_array(DataType::Int32, 3);
    let b = new_null_array(DataType::Utf8, 3);
    let dt = DataType::Struct(vec![
        plain_field(DataType::Int32),
        plain_field(DataType::Utf8),
    ]);
    let s = StructArray::try_new(dt, vec![a, b], Some(Bitmap::new_zeroed(3))).unwrap();
    assert_eq!(s.len(), 3);
    assert_eq!(s.fields().len(), 2);
    assert_eq!(s.values().len(), 2);
    assert!(s.validity().is_some());
    let with_none = s.with_validity(None);
    assert!(with_none.validity().is_none());
    let (fields, children, validity) = s.into_data();
    assert_eq!(fields.len(), 2);
    assert_eq!(children.len(), 2);
    assert!(validity.is_some());
}

#[test]
fn struct_array_requires_fields() {
    let r = StructArray::try_new(DataType::Struct(vec![]), vec![], None);
    assert_eq!(r.err().unwrap(), DecodeError::SchemaMismatch);
    let r = StructArray::try_new(DataType::Int32, vec![], None);
    assert_eq!(r.err().unwrap(), DecodeError::SchemaMismatch);
    // number of children must match the number of fields
    let r = StructArray::try_new(
        DataType::Struct(vec![plain_field(DataType::Int32)]),
        vec![],
        None,
    );
    assert_eq!(r.err().unwrap(), DecodeError::SchemaMismatch);
}

#[test]
fn struct_new_empty_and_new_null() {
    let dt = DataType::Struct(vec![
        plain_field(DataType::Boolean),
        plain_field(DataType::List(Box::new(plain_field(DataType::UInt16)))),
    ]);
    let empty = StructArray::new_empty(dt);
    assert_eq!(empty.len(), 0);
    assert!(empty.validity().is_none());

    let dt = DataType::Struct(vec![plain_field(DataType::Int64)]);
    let nulls = StructArray::new_null(dt, 4);
    assert_eq!(nulls.len(), 4);
    let v = nulls.validity().as_ref().unwrap();
    for i in 0..4 {
        assert!(!v.get(i));
    }
}

#[test]
fn empty_and_null_arrays_of_each_kind() {
    let kinds = vec![
        DataType::Int8,
        DataType::UInt64,
        DataType::Boolean,
        DataType::Utf8,
        DataType::LargeBinary,
        DataType::List(Box::new(plain_field(DataType::Int32))),
        DataType::Struct(vec![plain_field(DataType::Int32)]),
        DataType::Dictionary(IntKind::Int32, Box::new(DataType::Utf8)),
    ];
    for dt in kinds {
        let e = new_empty_array(dt.duplicate());
        assert_eq!(e.len(), 0);
        let n = new_null_array(dt, 5);
        assert_eq!(n.len(), 5);
    }
}

#[test]
fn dictionary_replace_semantics() {
    // registering an id again replaces the earlier values
    let mut dicts = Dictionaries::new();
    dicts.set(1, new_null_array(DataType::Int32, 2));
    dicts.set(1, new_null_array(DataType::Int32, 9));
    let got = dicts.get(1).unwrap();
    assert_eq!(got.len(), 9);
    assert!(dicts.get(2).is_none());
    assert!(dicts.contains(1));
    assert!(!dicts.contains(2));
}

#[test]
fn array_duplicate_preserves_values() {
    let a = new_null_array(DataType::Utf8, 3);
    let b = a.duplicate();
    assert_eq!(b.len(), 3);
}

#[test]
fn new_null_struct_children_are_all_null() {
    let dt = DataType::Struct(vec![
        plain_field(DataType::Int32),
        plain_field(DataType::Utf8),
    ]);
    let s = StructArray::new_null(dt, 3);
    for child in s.values() {
        assert_eq!(child.len(), 3);
        match child {
            columnar_ipc::array::Array::Primitive(p) => {
                for i in 0..3 {
                    assert!(!p.is_valid(i));
                    assert_eq!(p.value(i), 0);
                }
            }
            columnar_ipc::array::Array::Binary(b) => {
                for i in 0..3 {
                    assert!(!b.is_valid(i));
                    assert!(b.value(i).is_empty());
                }
            }
            _ => panic!("unexpected child kind"),
        }
    }
}
