//! Wire-level decode scenarios: encode arrays by hand into node/buffer
//! queues plus a body, decode, and compare lengths, validity and values.

use columnar_ipc::array::binary::BinaryArray;
use columnar_ipc::array::Array;
use columnar_ipc::datatypes::{DataType, Field, IntKind};
use columnar_ipc::decode::{read, skip, IpcField};
use columnar_ipc::dictionaries::Dictionaries;
use columnar_ipc::ipc::{BufferDesc, BufferQueue, Compression, FieldNode, NodeQueue, Version};

struct Enc {
    body: Vec<u8>,
    descs: Vec<BufferDesc>,
}

impl Enc {
    fn new() -> Enc {
        Enc { body: Vec::new(), descs: Vec::new() }
    }

    fn add(&mut self, bytes: &[u8]) {
        self.descs.push(BufferDesc { offset: self.body.len() as i64, length: bytes.len() as i64 });
        self.body.extend_from_slice(bytes);
    }

    fn add_compressed(&mut self, raw: &[u8]) {
        let mut framed = Vec::new();
        framed.extend_from_slice(&(raw.len() as i64).to_le_bytes());
        framed.extend_from_slice(&lz4_flex::block::compress(raw));
        self.add(&framed);
    }

    fn add_sentinel_raw(&mut self, raw: &[u8]) {
        let mut framed = Vec::new();
        framed.extend_from_slice(&(-1i64).to_le_bytes());
        framed.extend_from_slice(raw);
        self.add(&framed);
    }
}

fn pack_bits(bits: &[bool]) -> Vec<u8> {
    let mut out = vec![0u8; (bits.len() + 7) / 8];
    for (i, b) in bits.iter().enumerate() {
        if *b {
            out[i / 8] |= 1 << (i % 8);
        }
    }
    out
}

fn i32_bytes(values: &[i32]) -> Vec<u8> {
    let mut out = Vec::new();
    for v in values {
        out.extend_from_slice(&v.to_le_bytes());
    }
    out
}

fn no_ipc() -> IpcField {
    IpcField { fields: vec![], dictionary_id: None }
}

fn plain_field(data_type: DataType) -> Field {
    Field { data_type, is_nullable: true }
}

fn decode(
    nodes: Vec<FieldNode>,
    enc: Enc,
    field: &Field,
    ipc: &IpcField,
    compression: Option<Compression>,
) -> Result<Array, columnar_ipc::error::DecodeError> {
    let mut nq = NodeQueue::new(nodes);
    let mut bq = BufferQueue::new(enc.descs);
    read(
        &mut nq,
        field,
        ipc,
        &mut bq,
        &enc.body,
        &Dictionaries::new(),
        0,
        true,
        compression,
        Version::V5,
    )
}

#[test]
fn round_trip_primitive_with_validity() {
    let mut enc = Enc::new();
    enc.add(&pack_bits(&[true, false, true]));
    enc.add(&i32_bytes(&[7, -1, 42]));
    let field = plain_field(DataType::Int32);
    let a = decode(
        vec![FieldNode { length: 3, null_count: 1 }],
        enc,
        &field,
        &no_ipc(),
        None,
    )
    .unwrap();
    match a {
        Array::Primitive(p) => {
            assert_eq!(p.len(), 3);
            assert_eq!(p.value(0), 7);
            assert_eq!(p.value(1), -1);
            assert_eq!(p.value(2), 42);
            assert!(p.is_valid(0));
            assert!(!p.is_valid(1));
            assert!(p.is_valid(2));
        }
        _ => panic!("expected a primitive array"),
    }
}

#[test]
fn round_trip_primitive_big_endian() {
    let mut enc = Enc::new();
    enc.add(&[]);
    enc.add(&[0x01, 0x02, 0xFF, 0xFE]);
    let field = plain_field(DataType::Int16);
    let mut nq = NodeQueue::new(vec![FieldNode { length: 2, null_count: 0 }]);
    let mut bq = BufferQueue::new(enc.descs);
    let a = read(
        &mut nq,
        &field,
        &no_ipc(),
        &mut bq,
        &enc.body,
        &Dictionaries::new(),
        0,
        false,
        None,
        Version::V5,
    )
    .unwrap();
    match a {
        Array::Primitive(p) => {
            assert_eq!(p.value(0), 0x0102);
            assert_eq!(p.value(1), i16::from_be_bytes([0xFF, 0xFE]) as i128);
        }
        _ => panic!("expected a primitive array"),
    }
}

#[test]
fn round_trip_boolean() {
    let mut enc = Enc::new();
    enc.add(&pack_bits(&[true, true, false, true]));
    enc.add(&pack_bits(&[true, false, true, true]));
    let field = plain_field(DataType::Boolean);
    let a = decode(
        vec![FieldNode { length: 4, null_count: 1 }],
        enc,
        &field,
        &no_ipc(),
        None,
    )
    .unwrap();
    match a {
        Array::Boolean(b) => {
            assert_eq!(b.len(), 4);
            assert!(b.value(0));
            assert!(!b.value(1));
            assert!(b.value(2));
            assert!(b.is_valid(0));
            assert!(!b.is_valid(2));
        }
        _ => panic!("expected a boolean array"),
    }
}

#[test]
fn round_trip_utf8_offsets_invariants() {
    let mut enc = Enc::new();
    enc.add(&[]);
    enc.add(&i32_bytes(&[0, 2, 2, 5]));
    enc.add(b"hiyou");
    let field = plain_field(DataType::Utf8);
    let a = decode(
        vec![FieldNode { length: 3, null_count: 0 }],
        enc,
        &field,
        &no_ipc(),
        None,
    )
    .unwrap();
    match a {
        Array::Binary(b) => {
            assert_eq!(b.len(), 3);
            assert_eq!(b.value(0), b"hi".to_vec());
            assert_eq!(b.value(1), b"".to_vec());
            assert_eq!(b.value(2), b"you".to_vec());
            // offsets are non-decreasing, one longer than the length, and
            // end at the data region's byte count
            let offsets = b.offsets();
            assert_eq!(offsets.len(), b.len() + 1);
            for w in offsets.windows(2) {
                assert!(w[0] <= w[1]);
            }
            assert_eq!(*offsets.last().unwrap() as usize, b.data().len());
        }
        _ => panic!("expected a variable-length array"),
    }
}

#[test]
fn list_of_i32_concrete_scenario() {
    // A List<i32> with node {length: 3, null_count: 0}, offsets [0, 2, 2, 5]
    // and a five-element child decodes to [v0, v1], [], [v2, v3, v4].
    let mut enc = Enc::new();
    enc.add(&[]); // list validity (unused: null_count = 0)
    enc.add(&i32_bytes(&[0, 2, 2, 5]));
    enc.add(&[]); // child validity
    enc.add(&i32_bytes(&[10, 11, 12, 13, 14]));
    let field = plain_field(DataType::List(Box::new(plain_field(DataType::Int32))));
    let ipc = IpcField { fields: vec![no_ipc()], dictionary_id: None };
    let a = decode(
        vec![
            FieldNode { length: 3, null_count: 0 },
            FieldNode { length: 5, null_count: 0 },
        ],
        enc,
        &field,
        &ipc,
        None,
    )
    .unwrap();
    match a {
        Array::List(l) => {
            assert_eq!(l.len(), 3);
            assert_eq!(l.offsets(), &vec![0i64, 2, 2, 5]);
            match l.values() {
                Array::Primitive(p) => {
                    assert_eq!(p.len(), 5);
                    let got: Vec<i128> = p.values().clone();
                    assert_eq!(got, vec![10, 11, 12, 13, 14]);
                }
                _ => panic!("expected a primitive child"),
            }
        }
        _ => panic!("expected a list array"),
    }
}

#[test]
fn round_trip_struct_nested_two_deep() {
    // Struct { a: Int32, b: List<Int32> } — nesting of depth two.
    let mut enc = Enc::new();
    enc.add(&pack_bits(&[true, true])); // struct validity
    enc.add(&[]); // child a validity
    enc.add(&i32_bytes(&[5, 6]));
    enc.add(&[]); // list validity
    enc.add(&i32_bytes(&[0, 1, 3]));
    enc.add(&[]); // list child validity
    enc.add(&i32_bytes(&[9, 8, 7]));
    let field = plain_field(DataType::Struct(vec![
        plain_field(DataType::Int32),
        plain_field(DataType::List(Box::new(plain_field(DataType::Int32)))),
    ]));
    let ipc = IpcField {
        fields: vec![no_ipc(), IpcField { fields: vec![no_ipc()], dictionary_id: None }],
        dictionary_id: None,
    };
    let a = decode(
        vec![
            FieldNode { length: 2, null_count: 1 },
            FieldNode { length: 2, null_count: 0 },
            FieldNode { length: 2, null_count: 0 },
            FieldNode { length: 3, null_count: 0 },
        ],
        enc,
        &field,
        &ipc,
        None,
    )
    .unwrap();
    match a {
        Array::Struct(s) => {
            assert_eq!(s.len(), 2);
            assert_eq!(s.values().len(), 2);
            match &s.values()[0] {
                Array::Primitive(p) => {
                    assert_eq!(p.value(0), 5);
                    assert_eq!(p.value(1), 6);
                }
                _ => panic!("expected a primitive child"),
            }
            match &s.values()[1] {
                Array::List(l) => {
                    assert_eq!(l.len(), 2);
                    assert_eq!(l.offsets(), &vec![0i64, 1, 3]);
                }
                _ => panic!("expected a list child"),
            }
        }
        _ => panic!("expected a struct array"),
    }
}

#[test]
fn compressed_buffer_round_trip() {
    let raw = i32_bytes(&[100, 200, 300]);
    let mut enc = Enc::new();
    enc.add_compressed(&pack_bits(&[true, true, true]));
    enc.add_compressed(&raw);
    let field = plain_field(DataType::Int32);
    let a = decode(
        vec![FieldNode { length: 3, null_count: 1 }],
        enc,
        &field,
        &no_ipc(),
        Some(Compression::Lz4),
    )
    .unwrap();
    match a {
        Array::Primitive(p) => {
            assert_eq!(p.value(0), 100);
            assert_eq!(p.value(1), 200);
            assert_eq!(p.value(2), 300);
        }
        _ => panic!("expected a primitive array"),
    }
}

#[test]
fn sentinel_buffer_is_taken_raw() {
    // A buffer whose decompressed-length prefix is -1 is consumed as raw
    // bytes even though the message declares stream-level compression.
    let raw = i32_bytes(&[1, 2, 3]);
    let mut enc = Enc::new();
    enc.add_compressed(&pack_bits(&[true, true, true]));
    enc.add_sentinel_raw(&raw);
    let field = plain_field(DataType::Int32);
    let a = decode(
        vec![FieldNode { length: 3, null_count: 1 }],
        enc,
        &field,
        &no_ipc(),
        Some(Compression::Lz4),
    )
    .unwrap();
    match a {
        Array::Primitive(p) => {
            assert_eq!(p.value(0), 1);
            assert_eq!(p.value(1), 2);
            assert_eq!(p.value(2), 3);
        }
        _ => panic!("expected a primitive array"),
    }
}

#[test]
fn skip_consumes_what_read_consumes() {
    // For a nested type, skip and read consume identical node and buffer
    // counts.
    let field = plain_field(DataType::Struct(vec![
        plain_field(DataType::Utf8),
        plain_field(DataType::List(Box::new(plain_field(DataType::Int32)))),
    ]));
    let ipc = IpcField {
        fields: vec![no_ipc(), IpcField { fields: vec![no_ipc()], dictionary_id: None }],
        dictionary_id: None,
    };
    let nodes = vec![
        FieldNode { length: 1, null_count: 0 },
        FieldNode { length: 1, null_count: 0 },
        FieldNode { length: 1, null_count: 0 },
        FieldNode { length: 2, null_count: 0 },
    ];
    let mut enc = Enc::new();
    enc.add(&[]); // struct validity
    enc.add(&[]); // utf8 validity
    enc.add(&i32_bytes(&[0, 2]));
    enc.add(b"ab");
    enc.add(&[]); // list validity
    enc.add(&i32_bytes(&[0, 2]));
    enc.add(&[]); // child validity
    enc.add(&i32_bytes(&[4, 5]));
    // extra trailing entries that must remain untouched by both walks
    let mut nodes_extra = nodes.clone();
    nodes_extra.push(FieldNode { length: 99, null_count: 0 });
    let mut descs_extra = enc.descs.clone();
    descs_extra.push(BufferDesc { offset: 0, length: 0 });

    let mut nq = NodeQueue::new(nodes_extra.clone());
    let mut bq = BufferQueue::new(descs_extra.clone());
    read(
        &mut nq,
        &field,
        &ipc,
        &mut bq,
        &enc.body,
        &Dictionaries::new(),
        0,
        true,
        None,
        Version::V5,
    )
    .unwrap();
    let after_read = (nq.len(), bq.len());

    let mut nq2 = NodeQueue::new(nodes_extra);
    let mut bq2 = BufferQueue::new(descs_extra);
    skip(&mut nq2, &field.data_type, &mut bq2).unwrap();
    let after_skip = (nq2.len(), bq2.len());

    assert_eq!(after_read, after_skip);
    assert_eq!(after_read, (1, 1));
}

#[test]
fn legacy_offsets_fallback() {
    // A pre-V5 message whose offsets buffer is unreadable substitutes the
    // single-entry offsets [0]; the slot is still consumed.
    let mut enc = Enc::new();
    enc.add(&[]); // validity slot
    enc.add(&[]); // offsets slot, too short for 1 offset
    enc.add(&[]); // data slot
    let field = plain_field(DataType::Utf8);
    let mut nq = NodeQueue::new(vec![FieldNode { length: 0, null_count: 0 }]);
    let mut bq = BufferQueue::new(enc.descs);
    let a = read(
        &mut nq,
        &field,
        &no_ipc(),
        &mut bq,
        &enc.body,
        &Dictionaries::new(),
        0,
        true,
        None,
        Version::V4,
    )
    .unwrap();
    match a {
        Array::Binary(b) => {
            assert_eq!(b.len(), 0);
            assert_eq!(b.offsets(), &vec![0i64]);
        }
        _ => panic!("expected a variable-length array"),
    }
    assert_eq!(bq.len(), 0);
}

#[test]
fn write_value_renders_bytes() {
    let arr = BinaryArray::try_new(
        DataType::Binary,
        vec![0i64, 2, 5],
        vec![1u8, 200, 3, 45, 0],
        None,
    )
    .unwrap();
    assert_eq!(columnar_ipc::fmt::write_value(&arr, 0), "[1, 200]");
    assert_eq!(columnar_ipc::fmt::write_value(&arr, 1), "[3, 45, 0]");
}

#[test]
fn list_with_zero_null_count_has_no_validity() {
    // The validity slot is consumed but no bitmap is materialized.
    let mut enc = Enc::new();
    enc.add(&pack_bits(&[true, true])); // present but must be ignored
    enc.add(&i32_bytes(&[0, 1, 2]));
    enc.add(&[]); // child validity
    enc.add(&i32_bytes(&[7, 8]));
    let field = plain_field(DataType::List(Box::new(plain_field(DataType::Int32))));
    let ipc = IpcField { fields: vec![no_ipc()], dictionary_id: None };
    let a = decode(
        vec![
            FieldNode { length: 2, null_count: 0 },
            FieldNode { length: 2, null_count: 0 },
        ],
        enc,
        &field,
        &ipc,
        None,
    )
    .unwrap();
    match a {
        Array::List(l) => {
            assert!(l.validity().is_none());
        }
        _ => panic!("expected a list array"),
    }
}

#[test]
fn skip_list_with_missing_buffers_consumes_one_node() {
    let field = plain_field(DataType::List(Box::new(plain_field(DataType::Int32))));
    let mut nq = NodeQueue::new(vec![
        FieldNode { length: 1, null_count: 0 },
        FieldNode { length: 9, null_count: 0 },
    ]);
    let mut bq = BufferQueue::new(vec![BufferDesc { offset: 0, length: 0 }]);
    let r = columnar_ipc::decode::skip_list(&mut nq, &field.data_type, &mut bq);
    assert_eq!(r.err().unwrap(), columnar_ipc::error::DecodeError::Corruption);
    assert_eq!(nq.len(), 1);
}

#[test]
fn skip_on_empty_nodes_leaves_buffers_untouched() {
    let mut nq = NodeQueue::new(vec![]);
    let mut bq = BufferQueue::new(vec![
        BufferDesc { offset: 0, length: 0 },
        BufferDesc { offset: 0, length: 0 },
    ]);
    let r = skip(&mut nq, &DataType::Utf8, &mut bq);
    assert_eq!(r.err().unwrap(), columnar_ipc::error::DecodeError::Corruption);
    assert_eq!(bq.len(), 2);
}
