//! Every anomaly surfaces as the documented error, never as a panic.

use columnar_ipc::array::binary::BinaryArray;
use columnar_ipc::array::dictionary::DictionaryArray;
use columnar_ipc::array::primitive::PrimitiveArray;
use columnar_ipc::array::struct_::StructArray;
use columnar_ipc::array::{new_empty_array, new_null_array, Array};
use columnar_ipc::datatypes::{DataType, Field, IntKind};
use columnar_ipc::decode::{read, IpcField};
use columnar_ipc::dictionaries::Dictionaries;
use columnar_ipc::error::DecodeError;
use columnar_ipc::ipc::{BufferDesc, BufferQueue, FieldNode, NodeQueue, Version};

fn no_ipc() -> IpcField {
    IpcField { fields: vec![], dictionary_id: None }
}

fn plain_field(data_type: DataType) -> Field {
    Field { data_type, is_nullable: true }
}

fn read_empty_queues(field: &Field, ipc: &IpcField) -> Result<Array, DecodeError> {
    let mut nq = NodeQueue::new(vec![]);
    let mut bq = BufferQueue::new(vec![]);
    let body: Vec<u8> = vec![];
    read(
        &mut nq,
        field,
        ipc,
        &mut bq,
        &body,
        &Dictionaries::new(),
        0,
        true,
        None,
        Version::V5,
    )
}

#[test]
fn truncated_node_queue_is_corruption_for_each_variant() {
    let variants = vec![
        DataType::Int32,
        DataType::UInt64,
        DataType::Boolean,
        DataType::Utf8,
        DataType::LargeBinary,
        DataType::List(Box::new(plain_field(DataType::Int32))),
        DataType::Struct(vec![plain_field(DataType::Int32)]),
    ];
    for dt in variants {
        let ipc = match &dt {
            DataType::List(_) => IpcField { fields: vec![no_ipc()], dictionary_id: None },
            DataType::Struct(_) => IpcField { fields: vec![no_ipc()], dictionary_id: None },
            _ => no_ipc(),
        };
        let r = read_empty_queues(&plain_field(dt), &ipc);
        assert_eq!(r.err().unwrap(), DecodeError::Corruption);
    }
    // a registered dictionary with an empty node queue is also corruption
    let mut dicts = Dictionaries::new();
    dicts.set(3, new_empty_array(DataType::Utf8));
    let field = plain_field(DataType::Dictionary(IntKind::Int32, Box::new(DataType::Utf8)));
    let ipc = IpcField { fields: vec![], dictionary_id: Some(3) };
    let mut nq = NodeQueue::new(vec![]);
    let mut bq = BufferQueue::new(vec![]);
    let body: Vec<u8> = vec![];
    let r = read(&mut nq, &field, &ipc, &mut bq, &body, &dicts, 0, true, None, Version::V5);
    assert_eq!(r.err().unwrap(), DecodeError::Corruption);
}

#[test]
fn unsupported_kind_is_explicit() {
    let r = read_empty_queues(&plain_field(DataType::FixedSizeBinary(4)), &no_ipc());
    assert_eq!(r.err().unwrap(), DecodeError::UnsupportedType);
}

#[test]
fn unregistered_dictionary_id_is_not_found() {
    let field = plain_field(DataType::Dictionary(IntKind::Int32, Box::new(DataType::Utf8)));
    let ipc = IpcField { fields: vec![], dictionary_id: Some(42) };
    let r = read_empty_queues(&field, &ipc);
    assert_eq!(r.err().unwrap(), DecodeError::DictionaryNotFound);
}

#[test]
fn missing_dictionary_id_is_schema_mismatch() {
    let field = plain_field(DataType::Dictionary(IntKind::Int32, Box::new(DataType::Utf8)));
    let r = read_empty_queues(&field, &no_ipc());
    assert_eq!(r.err().unwrap(), DecodeError::SchemaMismatch);
}

#[test]
fn registered_dictionary_reproduces_prior_values() {
    let values = BinaryArray::try_new(
        DataType::Utf8,
        vec![0i64, 1, 2],
        vec![b'x', b'y'],
        None,
    )
    .unwrap();
    let mut dicts = Dictionaries::new();
    dicts.set(7, Array::Binary(values));

    // keys [1, 0, 1] over the two registered values
    let mut body: Vec<u8> = Vec::new();
    let mut descs: Vec<BufferDesc> = Vec::new();
    descs.push(BufferDesc { offset: 0, length: 0 });
    for k in [1i32, 0, 1] {
        body.extend_from_slice(&k.to_le_bytes());
    }
    descs.push(BufferDesc { offset: 0, length: 12 });
    let field = plain_field(DataType::Dictionary(IntKind::Int32, Box::new(DataType::Utf8)));
    let ipc = IpcField { fields: vec![], dictionary_id: Some(7) };
    let mut nq = NodeQueue::new(vec![FieldNode { length: 3, null_count: 0 }]);
    let mut bq = BufferQueue::new(descs);
    let a = read(&mut nq, &field, &ipc, &mut bq, &body, &dicts, 0, true, None, Version::V5)
        .unwrap();
    match a {
        Array::Dictionary(d) => {
            assert_eq!(d.len(), 3);
            assert_eq!(d.keys().value(0), 1);
            assert_eq!(d.keys().value(1), 0);
            match d.values() {
                Array::Binary(b) => {
                    assert_eq!(b.value(0), vec![b'x']);
                    assert_eq!(b.value(1), vec![b'y']);
                }
                _ => panic!("expected the registered text values"),
            }
        }
        _ => panic!("expected a dictionary array"),
    }
}

#[test]
fn out_of_range_valid_key_is_corruption() {
    // This crate's documented policy for the unspecified case: a key whose
    // validity bit is set but which indexes outside the values array is
    // corruption, not null.
    let values = new_empty_array(DataType::Utf8);
    let keys = PrimitiveArray::try_new(DataType::Int32, vec![0i128], None).unwrap();
    let dt = DataType::Dictionary(IntKind::Int32, Box::new(DataType::Utf8));
    let r = DictionaryArray::try_new(dt, keys, Box::new(values));
    assert_eq!(r.err().unwrap(), DecodeError::Corruption);
}

#[test]
fn struct_rejects_child_type_mismatch() {
    let child = new_null_array(DataType::Int64, 2);
    let dt = DataType::Struct(vec![plain_field(DataType::Int32)]);
    let r = StructArray::try_new(dt, vec![child], None);
    assert_eq!(r.err().unwrap(), DecodeError::SchemaMismatch);
}

#[test]
fn struct_rejects_child_length_mismatch() {
    let a = new_null_array(DataType::Int32, 2);
    let b = new_null_array(DataType::Int32, 3);
    let dt = DataType::Struct(vec![
        plain_field(DataType::Int32),
        plain_field(DataType::Int32),
    ]);
    let r = StructArray::try_new(dt, vec![a, b], None);
    assert_eq!(r.err().unwrap(), DecodeError::SchemaMismatch);
}

#[test]
fn struct_decode_rejects_mismatched_child_node_length() {
    // Two children whose field nodes declare different lengths.
    let mut body: Vec<u8> = Vec::new();
    let mut descs: Vec<BufferDesc> = Vec::new();
    descs.push(BufferDesc { offset: 0, length: 0 }); // struct validity
    descs.push(BufferDesc { offset: 0, length: 0 }); // child a validity
    for v in [1i32, 2] {
        body.extend_from_slice(&v.to_le_bytes());
    }
    descs.push(BufferDesc { offset: 0, length: 8 }); // child a data
    descs.push(BufferDesc { offset: 0, length: 0 }); // child b validity
    descs.push(BufferDesc { offset: 0, length: 8 }); // child b data: 2 elements
    let field = plain_field(DataType::Struct(vec![
        plain_field(DataType::Int32),
        plain_field(DataType::Int32),
    ]));
    let ipc = IpcField { fields: vec![no_ipc(), no_ipc()], dictionary_id: None };
    let mut nq = NodeQueue::new(vec![
        FieldNode { length: 2, null_count: 0 },
        FieldNode { length: 2, null_count: 0 },
        FieldNode { length: 1, null_count: 0 },
    ]);
    let mut bq = BufferQueue::new(descs);
    let r = read(
        &mut nq,
        &field,
        &ipc,
        &mut bq,
        &body,
        &Dictionaries::new(),
        0,
        true,
        None,
        Version::V5,
    );
    assert_eq!(r.err().unwrap(), DecodeError::SchemaMismatch);
}

#[test]
fn negative_node_length_is_corruption() {
    let mut nq = NodeQueue::new(vec![FieldNode { length: -4, null_count: 0 }]);
    let mut bq = BufferQueue::new(vec![
        BufferDesc { offset: 0, length: 0 },
        BufferDesc { offset: 0, length: 0 },
    ]);
    let body: Vec<u8> = vec![];
    let r = read(
        &mut nq,
        &plain_field(DataType::Int32),
        &no_ipc(),
        &mut bq,
        &body,
        &Dictionaries::new(),
        0,
        true,
        None,
        Version::V5,
    );
    assert_eq!(r.err().unwrap(), DecodeError::Corruption);
}

#[test]
fn descriptor_out_of_body_is_corruption() {
    let mut nq = NodeQueue::new(vec![FieldNode { length: 2, null_count: 0 }]);
    let mut bq = BufferQueue::new(vec![
        BufferDesc { offset: 0, length: 0 },
        BufferDesc { offset: 100, length: 8 },
    ]);
    let body: Vec<u8> = vec![0; 8];
    let r = read(
        &mut nq,
        &plain_field(DataType::Int32),
        &no_ipc(),
        &mut bq,
        &body,
        &Dictionaries::new(),
        0,
        true,
        None,
        Version::V5,
    );
    assert_eq!(r.err().unwrap(), DecodeError::Corruption);
}

#[test]
fn decreasing_offsets_are_corruption() {
    let mut body: Vec<u8> = Vec::new();
    for v in [0i32, 3, 1, 4] {
        body.extend_from_slice(&v.to_le_bytes());
    }
    body.extend_from_slice(b"abcd");
    let descs = vec![
        BufferDesc { offset: 0, length: 0 },
        BufferDesc { offset: 0, length: 16 },
        BufferDesc { offset: 16, length: 4 },
    ];
    let mut nq = NodeQueue::new(vec![FieldNode { length: 3, null_count: 0 }]);
    let mut bq = BufferQueue::new(descs);
    let r = read(
        &mut nq,
        &plain_field(DataType::Utf8),
        &no_ipc(),
        &mut bq,
        &body,
        &Dictionaries::new(),
        0,
        true,
        None,
        Version::V5,
    );
    assert_eq!(r.err().unwrap(), DecodeError::Corruption);
}

#[test]
fn corrupt_compressed_buffer_is_compression_error() {
    // A compressed buffer whose payload is not valid LZ4.
    let mut body: Vec<u8> = Vec::new();
    body.extend_from_slice(&(4i64).to_le_bytes());
    body.extend_from_slice(&[0xFF, 0xFF, 0xFF, 0xFF, 0xFF, 0xFF]);
    let descs = vec![
        BufferDesc { offset: 0, length: body.len() as i64 },
        BufferDesc { offset: 0, length: body.len() as i64 },
    ];
    let mut nq = NodeQueue::new(vec![FieldNode { length: 1, null_count: 1 }]);
    let mut bq = BufferQueue::new(descs);
    let r = read(
        &mut nq,
        &plain_field(DataType::Int32),
        &no_ipc(),
        &mut bq,
        &body,
        &Dictionaries::new(),
        0,
        true,
        Some(columnar_ipc::ipc::Compression::Lz4),
        Version::V5,
    );
    assert_eq!(r.err().unwrap(), DecodeError::Compression);
}
