//! The recursive array decoder and its skip walker. `read` pops exactly the
//! nodes and buffers its physical kind requires — one field node per array,
//! the validity slot always first — recursing into children depth-first on
//! the same shared queues, and builds every array through the validating
//! constructors. `skip` performs the identical consumption without
//! materializing data: on success both consume `node_count` and
//! `buffer_count` of the declared type, so a skipped column can never
//! desynchronize the ones after it.

use vstd::prelude::*;

use crate::array::binary::{is_varbin, offsets_ok, offsets_view, BinaryArray};
use crate::array::boolean::BooleanArray;
use crate::array::dictionary::DictionaryArray;
use crate::array::list::ListArray;
use crate::array::primitive::PrimitiveArray;
use crate::array::struct_::{struct_fields_of, StructArray};
use crate::array::{arrays_view, kind_data_type, Array};
use crate::bitmap::Bitmap;
use crate::datatypes::{
    dtv_height, fields_view, kind_max, kind_min, kind_width, lemma_fields_height, prim_kind,
    DataType, Dtv, Field, IntKind,
};
use crate::dictionaries::Dictionaries;
use crate::error::DecodeError;
use crate::ipc::{BufferDesc, BufferQueue, Compression, FieldNode, NodeQueue, Version};
use crate::model::{
    buffer_count, buffers_of_fields, dtv_of, len_of, lemma_fields_counts_step, node_count,
    nodes_of_fields, wf, Av,
};
use crate::read_basic::{
    buffer_bytes, decode_values, packed_seq, read_desc_bytes, read_validity, validity_spec,
    wire_value,
};

verus! {

broadcast use
    crate::array::lemma_arrays_view_len,
    crate::array::lemma_arrays_view_index,
    crate::datatypes::lemma_fields_view_len,
    crate::datatypes::lemma_fields_view_index;

/// The schema-side mapping that mirrors a declared type's nesting and
/// carries the dictionary id of each dictionary-typed node.
pub struct IpcField {
    pub fields: Vec<IpcField>,
    pub dictionary_id: Option<i64>,
}

/// Every values array the resolver holds is well formed.
pub open spec fn resolver_wf(m: Map<int, Av>) -> bool {
    forall|k: int| m.contains_key(k) ==> wf(#[trigger] m[k])
}

/// A declared element count is usable only when it is non-negative and
/// addressable.
pub open spec fn length_ok(length: i64) -> bool {
    0 <= length <= usize::MAX
}

/// Converts a field node's declared length; a negative or unaddressable
/// length is corruption.
fn node_length(node: FieldNode) -> (r: Result<usize, DecodeError>)
    ensures
        match r {
            Ok(n) => length_ok(node.length) && n == node.length,
            Err(e) => e == DecodeError::Corruption && !length_ok(node.length),
        },
{
    if node.length < 0 {
        return Err(DecodeError::Corruption);
    }
    if (node.length as u64) > (usize::MAX as u64) {
        return Err(DecodeError::Corruption);
    }
    Ok(node.length as usize)
}

/// The exact ghost outcome of decoding one primitive array from one node
/// and its two buffer slots.
pub open spec fn primitive_spec(
    node: FieldNode,
    d0: BufferDesc,
    d1: BufferDesc,
    body: Seq<u8>,
    block_offset: int,
    little: bool,
    compression: Option<Compression>,
    dt: Dtv,
) -> Result<Av, DecodeError> {
    let kind = prim_kind(dt)->Some_0;
    if !length_ok(node.length) {
        Err(DecodeError::Corruption)
    } else {
        match validity_spec(
            body,
            block_offset,
            compression,
            d0,
            node.null_count as int,
            node.length as int,
        ) {
            Err(e) => Err(e),
            Ok(v) => match buffer_bytes(
                body,
                block_offset,
                compression,
                d1,
                node.length * kind_width(kind),
            ) {
                Err(e) => Err(e),
                Ok(bytes) => Ok(
                    Av::Primitive {
                        dt,
                        kind,
                        values: Seq::new(
                            node.length as nat,
                            |e: int| wire_value(bytes, kind, little, e),
                        ),
                        validity: v,
                    },
                ),
            },
        }
    }
}

/// The exact ghost outcome of decoding one boolean array.
pub open spec fn boolean_spec(
    node: FieldNode,
    d0: BufferDesc,
    d1: BufferDesc,
    body: Seq<u8>,
    block_offset: int,
    compression: Option<Compression>,
) -> Result<Av, DecodeError> {
    if !length_ok(node.length) {
        Err(DecodeError::Corruption)
    } else {
        match validity_spec(
            body,
            block_offset,
            compression,
            d0,
            node.null_count as int,
            node.length as int,
        ) {
            Err(e) => Err(e),
            Ok(v) => match buffer_bytes(
                body,
                block_offset,
                compression,
                d1,
                (node.length + 7) / 8,
            ) {
                Err(e) => Err(e),
                Ok(bytes) => Ok(
                    Av::Boolean {
                        dt: Dtv::Boolean,
                        values: packed_seq(bytes, node.length as int),
                        validity: v,
                    },
                ),
            },
        }
    }
}

/// The exact ghost outcome of the offsets slot of a variable-length or
/// list array: `length + 1` offsets of the kind's width, or — only for a
/// legacy message whose offsets buffer cannot be decoded — the one-entry
/// substitute `[0]`.
pub open spec fn offsets_spec(
    desc: BufferDesc,
    body: Seq<u8>,
    block_offset: int,
    compression: Option<Compression>,
    little: bool,
    length: int,
    large: bool,
    version: Version,
) -> Result<Seq<int>, DecodeError> {
    let kind = if large {
        IntKind::Int64
    } else {
        IntKind::Int32
    };
    match buffer_bytes(body, block_offset, compression, desc, (length + 1) * kind_width(kind)) {
        Ok(bytes) => Ok(Seq::new((length + 1) as nat, |e: int| wire_value(bytes, kind, little, e))),
        Err(e) => if version == Version::V4 {
            Ok(seq![0])
        } else {
            Err(e)
        },
    }
}

/// The ghost outcome of the shared prefix of a variable-length or list
/// decode: the field node, the validity slot, and the offsets slot, with
/// the queue-underflow outcomes. The node is popped first, then the
/// validity slot, then the offsets slot.
pub open spec fn varbin_header_spec(
    nodes: Seq<FieldNode>,
    buffers: Seq<BufferDesc>,
    body: Seq<u8>,
    block_offset: int,
    little: bool,
    compression: Option<Compression>,
    large: bool,
    version: Version,
) -> Result<(FieldNode, Option<Seq<bool>>, Seq<int>), DecodeError> {
    if nodes.len() == 0 {
        Err(DecodeError::Corruption)
    } else if !length_ok(nodes[0].length) {
        Err(DecodeError::Corruption)
    } else if buffers.len() == 0 {
        Err(DecodeError::Corruption)
    } else {
        match validity_spec(
            body,
            block_offset,
            compression,
            buffers[0],
            nodes[0].null_count as int,
            nodes[0].length as int,
        ) {
            Err(e) => Err(e),
            Ok(v) => if buffers.len() < 2 {
                Err(DecodeError::Corruption)
            } else {
                match offsets_spec(
                    buffers[1],
                    body,
                    block_offset,
                    compression,
                    little,
                    nodes[0].length as int,
                    large,
                    version,
                ) {
                    Err(e) => Err(e),
                    Ok(offs) => Ok((nodes[0], v, offs)),
                }
            },
        }
    }
}

/// The exact ghost outcome of one variable-length binary decode from given
/// queue states: the shared header, then the offsets shape check, then the
/// data buffer sized by the last offset, then the validity length check.
pub open spec fn binary_queue_spec(
    nodes: Seq<FieldNode>,
    buffers: Seq<BufferDesc>,
    body: Seq<u8>,
    block_offset: int,
    little: bool,
    compression: Option<Compression>,
    dt: Dtv,
    version: Version,
) -> Result<Av, DecodeError> {
    match varbin_header_spec(
        nodes,
        buffers,
        body,
        block_offset,
        little,
        compression,
        (dt == Dtv::LargeUtf8 || dt == Dtv::LargeBinary),
        version,
    ) {
        Err(e) => Err(e),
        Ok((node, v, offs)) => if !crate::model::offsets_wf(offs, crate::model::offset_max(dt)) {
            Err(DecodeError::Corruption)
        } else if buffers.len() < 3 {
            Err(DecodeError::Corruption)
        } else {
            match buffer_bytes(body, block_offset, compression, buffers[2], offs.last()) {
                Err(e) => Err(e),
                Ok(data) => if !crate::model::validity_ok(v, offs.len() - 1) {
                    Err(DecodeError::SchemaMismatch)
                } else {
                    Ok(Av::VarBin { dt, offsets: offs, data, validity: v })
                },
            }
        },
    }
}

/// `primitive_spec` extended with the queue-underflow outcomes: the node is
/// popped first, then the validity slot, then the data slot.
pub open spec fn primitive_queue_spec(
    nodes: Seq<FieldNode>,
    buffers: Seq<BufferDesc>,
    body: Seq<u8>,
    block_offset: int,
    little: bool,
    compression: Option<Compression>,
    dt: Dtv,
) -> Result<Av, DecodeError> {
    if nodes.len() == 0 {
        Err(DecodeError::Corruption)
    } else if buffers.len() >= 2 {
        primitive_spec(nodes[0], buffers[0], buffers[1], body, block_offset, little, compression, dt)
    } else if !length_ok(nodes[0].length) {
        Err(DecodeError::Corruption)
    } else if buffers.len() == 0 {
        Err(DecodeError::Corruption)
    } else {
        match validity_spec(
            body,
            block_offset,
            compression,
            buffers[0],
            nodes[0].null_count as int,
            nodes[0].length as int,
        ) {
            Err(e) => Err(e),
            Ok(_) => Err(DecodeError::Corruption),
        }
    }
}

/// `boolean_spec` extended with the queue-underflow outcomes.
pub open spec fn boolean_queue_spec(
    nodes: Seq<FieldNode>,
    buffers: Seq<BufferDesc>,
    body: Seq<u8>,
    block_offset: int,
    compression: Option<Compression>,
) -> Result<Av, DecodeError> {
    if nodes.len() == 0 {
        Err(DecodeError::Corruption)
    } else if buffers.len() >= 2 {
        boolean_spec(nodes[0], buffers[0], buffers[1], body, block_offset, compression)
    } else if !length_ok(nodes[0].length) {
        Err(DecodeError::Corruption)
    } else if buffers.len() == 0 {
        Err(DecodeError::Corruption)
    } else {
        match validity_spec(
            body,
            block_offset,
            compression,
            buffers[0],
            nodes[0].null_count as int,
            nodes[0].length as int,
        ) {
            Err(e) => Err(e),
            Ok(_) => Err(DecodeError::Corruption),
        }
    }
}

/// The ghost outcome of one dictionary-encoded decode: the schema id and
/// the resolver decide first, then the keys follow the primitive path, and
/// the values array comes from the resolver, never from the queues.
pub open spec fn dict_queue_spec(
    k: IntKind,
    vt: Dtv,
    ipc: IpcField,
    nodes: Seq<FieldNode>,
    buffers: Seq<BufferDesc>,
    body: Seq<u8>,
    block_offset: int,
    little: bool,
    compression: Option<Compression>,
    dicts: Map<int, Av>,
) -> Result<Av, DecodeError> {
    if ipc.dictionary_id is None {
        Err(DecodeError::SchemaMismatch)
    } else if !dicts.contains_key(ipc.dictionary_id->Some_0 as int) {
        Err(DecodeError::DictionaryNotFound)
    } else {
        let values = dicts[ipc.dictionary_id->Some_0 as int];
        match primitive_queue_spec(
            nodes,
            buffers,
            body,
            block_offset,
            little,
            compression,
            crate::datatypes::kind_dtv(k),
        ) {
            Err(e) => Err(e),
            Ok(kv) => if dtv_of(values) != vt {
                Err(DecodeError::SchemaMismatch)
            } else if crate::array::dictionary::has_out_of_range_key(
                kv->Primitive_values,
                kv->Primitive_validity,
                len_of(values),
            ) {
                Err(DecodeError::Corruption)
            } else {
                Ok(
                    Av::Dictionary {
                        dt: Dtv::Dictionary(k, Box::new(vt)),
                        key_kind: k,
                        keys: kv->Primitive_values,
                        key_validity: kv->Primitive_validity,
                        values: Box::new(values),
                    },
                )
            },
        }
    }
}

/// The construction checks at the end of one list decode, in order:
/// offsets shape, last offset against the child's element count, validity
/// length.
pub open spec fn list_tail_spec(dt: Dtv, offs: Seq<int>, child: Av, v: Option<Seq<bool>>) -> Result<
    Av,
    DecodeError,
> {
    if !crate::model::offsets_wf(offs, crate::model::offset_max(dt)) {
        Err(DecodeError::Corruption)
    } else if offs.last() != len_of(child) {
        Err(DecodeError::Corruption)
    } else if !crate::model::validity_ok(v, offs.len() - 1) {
        Err(DecodeError::SchemaMismatch)
    } else {
        Ok(Av::List { dt, offsets: offs, child: Box::new(child), validity: v })
    }
}

/// Reads one primitive array: one field node, the validity slot, one data
/// buffer whose byte length must cover the declared element count.
#[verifier::loop_isolation(false)]
pub fn read_primitive(
    field_nodes: &mut NodeQueue,
    data_type: DataType,
    buffers: &mut BufferQueue,
    body: &Vec<u8>,
    block_offset: u64,
    is_little_endian: bool,
    compression: Option<Compression>,
) -> (r: Result<PrimitiveArray, DecodeError>)
    requires
        prim_kind(data_type@) is Some,
    ensures
        match r {
            Ok(a) => {
                &&& old(field_nodes)@.len() >= 1
                &&& old(buffers)@.len() >= 2
                &&& final(field_nodes)@ == old(field_nodes)@.drop_first()
                &&& final(buffers)@ == old(buffers)@.skip(2)
                &&& wf(a@)
                &&& dtv_of(a@) == data_type@
                &&& len_of(a@) == old(field_nodes)@[0].length
                &&& primitive_spec(
                    old(field_nodes)@[0],
                    old(buffers)@[0],
                    old(buffers)@[1],
                    body@,
                    block_offset as int,
                    is_little_endian,
                    compression,
                    data_type@,
                ) == Ok::<Av, DecodeError>(a@)
            },
            Err(e) => {
                &&& (old(field_nodes)@.len() == 0 ==> e == DecodeError::Corruption && final(field_nodes)@ == old(field_nodes)@ && final(buffers)@ == old(buffers)@)
                &&& (old(field_nodes)@.len() >= 1 ==> final(field_nodes)@ == old(field_nodes)@.drop_first())
                &&& (old(field_nodes)@.len() >= 1 && old(buffers)@.len() >= 2 ==> primitive_spec(
                    old(field_nodes)@[0],
                    old(buffers)@[0],
                    old(buffers)@[1],
                    body@,
                    block_offset as int,
                    is_little_endian,
                    compression,
                    data_type@,
                ) == Err::<Av, DecodeError>(e))
            },
        },
        (match r {
            Ok(a) => primitive_queue_spec(
                old(field_nodes)@,
                old(buffers)@,
                body@,
                block_offset as int,
                is_little_endian,
                compression,
                data_type@,
            ) == Ok::<Av, DecodeError>(a@),
            Err(e) => primitive_queue_spec(
                old(field_nodes)@,
                old(buffers)@,
                body@,
                block_offset as int,
                is_little_endian,
                compression,
                data_type@,
            ) == Err::<Av, DecodeError>(e),
        }),
{
    let node = match field_nodes.pop_field_node() {
        Ok(n) => n,
        Err(e) => {
            return Err(e);
        },
    };
    let length = match node_length(node) {
        Ok(n) => n,
        Err(e) => {
            return Err(e);
        },
    };
    let validity = match read_validity(buffers, node, length, body, block_offset, compression) {
        Ok(v) => v,
        Err(e) => {
            return Err(e);
        },
    };
    let kind = match data_type.primitive_kind() {
        Option::Some(k) => k,
        Option::None => {
            proof {
                assert(false);
            }
            unreached()
        },
    };
    let width: usize = kind.width();
    proof {
        assert(length * width <= usize::MAX * 8) by (nonlinear_arith)
            requires
                length <= usize::MAX,
                width <= 8,
        ;
    }
    let needed_wide: u128 = (length as u128) * (width as u128);
    if needed_wide > (usize::MAX as u128) {
        proof {
            assert(length * kind_width(kind) > usize::MAX);
        }
        return Err(DecodeError::Corruption);
    }
    let needed: usize = length * width;
    let bytes = match crate::read_basic::read_buffer_bytes(
        buffers,
        body,
        block_offset,
        compression,
        needed,
    ) {
        Ok(b) => b,
        Err(e) => {
            return Err(e);
        },
    };
    proof {
        assert(bytes@.len() == needed);
    }
    let values = decode_values(&bytes, length, kind, is_little_endian);
    let arr = PrimitiveArray::new(data_type, values, validity);
    proof {
        assert(arr@->Primitive_values =~= Seq::new(
            length as nat,
            |e: int| wire_value(bytes@, kind, is_little_endian, e),
        ));
    }
    Ok(arr)
}

/// Reads one boolean array: one field node, the validity slot, one
/// bit-packed data buffer.
pub fn read_boolean(
    field_nodes: &mut NodeQueue,
    data_type: DataType,
    buffers: &mut BufferQueue,
    body: &Vec<u8>,
    block_offset: u64,
    compression: Option<Compression>,
) -> (r: Result<BooleanArray, DecodeError>)
    requires
        data_type@ == Dtv::Boolean,
    ensures
        match r {
            Ok(a) => {
                &&& old(field_nodes)@.len() >= 1
                &&& old(buffers)@.len() >= 2
                &&& final(field_nodes)@ == old(field_nodes)@.drop_first()
                &&& final(buffers)@ == old(buffers)@.skip(2)
                &&& wf(a@)
                &&& dtv_of(a@) == data_type@
                &&& len_of(a@) == old(field_nodes)@[0].length
                &&& boolean_spec(
                    old(field_nodes)@[0],
                    old(buffers)@[0],
                    old(buffers)@[1],
                    body@,
                    block_offset as int,
                    compression,
                ) == Ok::<Av, DecodeError>(a@)
            },
            Err(e) => {
                &&& (old(field_nodes)@.len() == 0 ==> e == DecodeError::Corruption && final(field_nodes)@ == old(field_nodes)@ && final(buffers)@ == old(buffers)@)
                &&& (old(field_nodes)@.len() >= 1 ==> final(field_nodes)@ == old(field_nodes)@.drop_first())
            },
        },
        (match r {
            Ok(a) => boolean_queue_spec(
                old(field_nodes)@,
                old(buffers)@,
                body@,
                block_offset as int,
                compression,
            ) == Ok::<Av, DecodeError>(a@),
            Err(e) => boolean_queue_spec(
                old(field_nodes)@,
                old(buffers)@,
                body@,
                block_offset as int,
                compression,
            ) == Err::<Av, DecodeError>(e),
        }),
{
    let node = match field_nodes.pop_field_node() {
        Ok(n) => n,
        Err(e) => {
            return Err(e);
        },
    };
    let length = match node_length(node) {
        Ok(n) => n,
        Err(e) => {
            return Err(e);
        },
    };
    let validity = match read_validity(buffers, node, length, body, block_offset, compression) {
        Ok(v) => v,
        Err(e) => {
            return Err(e);
        },
    };
    let bytes_needed: usize = length / 8 + if length % 8 == 0 {
        0usize
    } else {
        1usize
    };
    proof {
        assert(bytes_needed == (length + 7) / 8);
    }
    let bytes = match crate::read_basic::read_buffer_bytes(
        buffers,
        body,
        block_offset,
        compression,
        bytes_needed,
    ) {
        Ok(b) => b,
        Err(e) => {
            return Err(e);
        },
    };
    proof {
        assert(length <= bytes@.len() * 8);
    }
    let bm = Bitmap::from_packed(&bytes, length);
    proof {
        assert(bm@ =~= packed_seq(bytes@, length as int));
    }
    let arr = BooleanArray::new(data_type, bm, validity);
    Ok(arr)
}

/// Converts decoded offset values (already known to fit `i64`) into an
/// offsets vector.
fn to_offsets(values: Vec<i128>) -> (r: Vec<i64>)
    requires
        forall|i: int|
            0 <= i < values@.len() ==> kind_min(IntKind::Int64) <= #[trigger] values@[i] as int
                <= kind_max(IntKind::Int64),
    ensures
        r@.len() == values@.len(),
        forall|i: int| 0 <= i < r@.len() ==> #[trigger] r@[i] as int == values@[i] as int,
{
    let n: usize = values.len();
    let mut out: Vec<i64> = Vec::new();
    let mut i: usize = 0;
    while i < n
        invariant
            n == values@.len(),
            forall|j: int|
                0 <= j < n ==> kind_min(IntKind::Int64) <= #[trigger] values@[j] as int <= kind_max(
                    IntKind::Int64,
                ),
            0 <= i <= n,
            out@.len() == i,
            forall|j: int| 0 <= j < i ==> #[trigger] out@[j] as int == values@[j] as int,
        decreases n - i,
    {
        proof {
            assert(kind_min(IntKind::Int64) <= values@[i as int] as int <= kind_max(
                IntKind::Int64,
            ));
        }
        out.push(values[i] as i64);
        i = i + 1;
    }
    out
}

/// Reads the offsets slot of a variable-length or list array, applying the
/// legacy single-entry fallback only for pre-`V5` messages whose offsets
/// buffer cannot be decoded. The descriptor slot is consumed either way:
/// the fallback replaces the decoded contents, never the consumption, so
/// `skip` stays synchronized.
#[verifier::loop_isolation(false)]
fn read_offsets(
    buffers: &mut BufferQueue,
    body: &Vec<u8>,
    block_offset: u64,
    is_little_endian: bool,
    compression: Option<Compression>,
    length: usize,
    large: bool,
    version: Version,
) -> (r: Result<Vec<i64>, DecodeError>)
    ensures
        old(buffers)@.len() == 0 ==> r == Err::<Vec<i64>, DecodeError>(DecodeError::Corruption)
            && final(buffers)@ == old(buffers)@,
        old(buffers)@.len() >= 1 ==> final(buffers)@ == old(buffers)@.drop_first() && match r {
            Ok(o) => offsets_spec(
                old(buffers)@[0],
                body@,
                block_offset as int,
                compression,
                is_little_endian,
                length as int,
                large,
                version,
            ) == Ok::<Seq<int>, DecodeError>(offsets_view(o@)),
            Err(e) => offsets_spec(
                old(buffers)@[0],
                body@,
                block_offset as int,
                compression,
                is_little_endian,
                length as int,
                large,
                version,
            ) == Err::<Seq<int>, DecodeError>(e),
        },
        r matches Ok(o) ==> o@.len() >= 1,
{
    let desc = match buffers.pop_buffer() {
        Ok(d) => d,
        Err(e) => {
            return Err(e);
        },
    };
    let kind = if large {
        IntKind::Int64
    } else {
        IntKind::Int32
    };
    let w: usize = kind.width();
    let wide: u128 = (length as u128 + 1) * (w as u128);
    let decoded: Result<Vec<u8>, DecodeError> = if wide > (usize::MAX as u128) {
        proof {
            assert((length + 1) * kind_width(kind) > usize::MAX);
        }
        Err(DecodeError::Corruption)
    } else {
        proof {
            assert((length + 1) * kind_width(kind) == wide);
        }
        let needed: usize = (length + 1) * w;
        read_desc_bytes(desc, body, block_offset, compression, needed)
    };
    match decoded {
        Ok(bytes) => {
            proof {
                assert(bytes@.len() == (length + 1) * kind_width(kind));
            }
            let vals = decode_values(&bytes, length + 1, kind, is_little_endian);
            proof {
                assert forall|i: int| 0 <= i < vals@.len() implies kind_min(IntKind::Int64)
                    <= #[trigger] vals@[i] as int <= kind_max(IntKind::Int64) by {
                    assert(kind_min(kind) <= vals@[i] as int <= kind_max(kind));
                }
            }
            let o = to_offsets(vals);
            proof {
                assert(offsets_view(o@) =~= Seq::new(
                    (length + 1) as nat,
                    |e: int| wire_value(bytes@, kind, is_little_endian, e),
                ));
            }
            Ok(o)
        },
        Err(e) => {
            match version {
                Version::V4 => {
                    let mut o: Vec<i64> = Vec::new();
                    o.push(0i64);
                    proof {
                        assert(offsets_view(o@) =~= seq![0int]);
                    }
                    Ok(o)
                },
                Version::V5 => Err(e),
            }
        },
    }
}

/// Reads the shared prefix of a variable-length or list decode: one field
/// node, the validity slot, and the offsets slot (with the legacy
/// fallback). Returns the node, its length, the validity, and the offsets.
fn read_varbin_header(
    field_nodes: &mut NodeQueue,
    buffers: &mut BufferQueue,
    body: &Vec<u8>,
    block_offset: u64,
    is_little_endian: bool,
    compression: Option<Compression>,
    large: bool,
    version: Version,
) -> (r: Result<(FieldNode, usize, Option<Bitmap>, Vec<i64>), DecodeError>)
    ensures
        ({
            let sr = varbin_header_spec(
                old(field_nodes)@,
                old(buffers)@,
                body@,
                block_offset as int,
                is_little_endian,
                compression,
                large,
                version,
            );
            match r {
                Ok(t) => {
                    &&& sr == Ok::<(FieldNode, Option<Seq<bool>>, Seq<int>), DecodeError>(
                        (t.0, crate::bitmap::validity_view(t.2), offsets_view(t.3@)),
                    )
                    &&& t.1 as int == t.0.length
                    &&& length_ok(t.0.length)
                    &&& old(field_nodes)@.len() >= 1
                    &&& t.0 == old(field_nodes)@[0]
                    &&& old(buffers)@.len() >= 2
                    &&& final(field_nodes)@ == old(field_nodes)@.drop_first()
                    &&& final(buffers)@ == old(buffers)@.skip(2)
                    &&& crate::model::validity_ok(
                        crate::bitmap::validity_view(t.2),
                        t.0.length as int,
                    )
                    &&& t.3@.len() >= 1
                },
                Err(e) => {
                    &&& sr == Err::<(FieldNode, Option<Seq<bool>>, Seq<int>), DecodeError>(e)
                    &&& (old(field_nodes)@.len() == 0 ==> e == DecodeError::Corruption && final(field_nodes)@ == old(field_nodes)@ && final(buffers)@ == old(buffers)@)
                },
            }
        }),
{
    let node = match field_nodes.pop_field_node() {
        Ok(n) => n,
        Err(e) => {
            return Err(e);
        },
    };
    let length = match node_length(node) {
        Ok(n) => n,
        Err(e) => {
            return Err(e);
        },
    };
    let validity = match read_validity(buffers, node, length, body, block_offset, compression) {
        Ok(v) => v,
        Err(e) => {
            return Err(e);
        },
    };
    let offsets = match read_offsets(
        buffers,
        body,
        block_offset,
        is_little_endian,
        compression,
        length,
        large,
        version,
    ) {
        Ok(o) => o,
        Err(e) => {
            proof {
                if old(buffers)@.len() >= 2 {
                    assert(old(buffers)@.skip(1)[0] == old(buffers)@[1]);
                }
            }
            return Err(e);
        },
    };
    proof {
        if old(buffers)@.len() >= 2 {
            assert(old(buffers)@.skip(1)[0] == old(buffers)@[1]);
        }
        assert(buffers@ =~= old(buffers)@.skip(2));
    }
    Ok((node, length, validity, offsets))
}

/// Reads one variable-length binary or text array: one field node, the
/// validity slot, the offsets buffer (`length + 1` entries, with the
/// legacy fallback), then the data buffer sized by the last offset.
#[verifier::rlimit(100)]
#[verifier::spinoff_prover]
pub fn read_binary(
    field_nodes: &mut NodeQueue,
    data_type: DataType,
    buffers: &mut BufferQueue,
    body: &Vec<u8>,
    block_offset: u64,
    is_little_endian: bool,
    compression: Option<Compression>,
    version: Version,
) -> (r: Result<BinaryArray, DecodeError>)
    requires
        is_varbin(data_type@),
    ensures
        match r {
            Ok(a) => {
                &&& old(field_nodes)@.len() >= 1
                &&& old(buffers)@.len() >= 3
                &&& final(field_nodes)@ == old(field_nodes)@.drop_first()
                &&& final(buffers)@ == old(buffers)@.skip(3)
                &&& wf(a@)
                &&& dtv_of(a@) == data_type@
                &&& length_ok(old(field_nodes)@[0].length)
            },
            Err(e) => (old(field_nodes)@.len() == 0 ==> e == DecodeError::Corruption && final(field_nodes)@ == old(field_nodes)@ && final(buffers)@ == old(buffers)@),
        },
        ({
            let sr = binary_queue_spec(
                old(field_nodes)@,
                old(buffers)@,
                body@,
                block_offset as int,
                is_little_endian,
                compression,
                data_type@,
                version,
            );
            match r {
                Ok(a) => sr == Ok::<Av, DecodeError>(a@),
                Err(e) => sr == Err::<Av, DecodeError>(e),
            }
        }),
{
    let large = match &data_type {
        DataType::LargeUtf8 => true,
        DataType::LargeBinary => true,
        _ => false,
    };
    let (node, length, validity, offsets) = match read_varbin_header(
        field_nodes,
        buffers,
        body,
        block_offset,
        is_little_endian,
        compression,
        large,
        version,
    ) {
        Ok(t) => t,
        Err(e) => {
            return Err(e);
        },
    };
    let maxv: i64 = if large {
        9223372036854775807
    } else {
        2147483647
    };
    if !offsets_ok(&offsets, maxv) {
        return Err(DecodeError::Corruption);
    }
    let last: i64 = offsets[offsets.len() - 1];
    proof {
        crate::array::binary::lemma_offsets_sorted(
            offsets_view(offsets@),
            0,
            offsets_view(offsets@).len() - 1,
        );
    }
    if (last as u64) > (usize::MAX as u64) {
        return Err(DecodeError::Corruption);
    }
    let desc = match buffers.pop_buffer() {
        Ok(d) => d,
        Err(e) => {
            return Err(e);
        },
    };
    proof {
        assert(old(buffers)@.len() >= 3);
        assert(desc == old(buffers)@[2]);
    }
    let data = match read_desc_bytes(desc, body, block_offset, compression, last as usize) {
        Ok(b) => b,
        Err(e) => {
            return Err(e);
        },
    };
    proof {
        assert(data@.len() == last);
    }
    match BinaryArray::try_new(data_type, offsets, data, validity) {
        Ok(a) => {
            proof {
                assert(buffers@ =~= old(buffers)@.skip(3));
            }
            Ok(a)
        },
        Err(e) => Err(e),
    }
}

/// Builds the list array at the end of one list decode, mapping the
/// constructor's outcome onto `list_tail_spec` exactly.
#[verifier::rlimit(100)]
#[verifier::spinoff_prover]
fn assemble_list(
    data_type: DataType,
    offsets: Vec<i64>,
    values: Array,
    validity: Option<Bitmap>,
) -> (r: Result<ListArray, DecodeError>)
    requires
        wf(values@),
        crate::array::list::is_list_of(data_type@, dtv_of(values@)),
    ensures
        ({
            let sr = list_tail_spec(
                data_type@,
                offsets_view(offsets@),
                values@,
                crate::bitmap::validity_view(validity),
            );
            match r {
                Ok(a) => {
                    &&& sr == Ok::<Av, DecodeError>(a@)
                    &&& wf(a@)
                    &&& dtv_of(a@) == data_type@
                },
                Err(e) => sr == Err::<Av, DecodeError>(e),
            }
        }),
{
    match ListArray::try_new(data_type, offsets, Box::new(values), validity) {
        Ok(a) => Ok(a),
        Err(e) => Err(e),
    }
}

/// Reads one list array: one field node, the validity slot, the offsets
/// buffer (with the legacy fallback), then exactly one child decoded
/// recursively from the same queues.
#[verifier::rlimit(100)]
#[verifier::spinoff_prover]
pub fn read_list(
    field_nodes: &mut NodeQueue,
    data_type: DataType,
    ipc_field: &IpcField,
    buffers: &mut BufferQueue,
    body: &Vec<u8>,
    dictionaries: &Dictionaries,
    block_offset: u64,
    is_little_endian: bool,
    compression: Option<Compression>,
    version: Version,
) -> (r: Result<ListArray, DecodeError>)
    requires
        data_type@ is List || data_type@ is LargeList,
        resolver_wf(dictionaries@),
    ensures
        match r {
            Ok(a) => {
                &&& old(field_nodes)@.len() >= node_count(data_type@)
                &&& old(buffers)@.len() >= buffer_count(data_type@)
                &&& final(field_nodes)@ == old(field_nodes)@.skip(
                    node_count(data_type@) as int,
                )
                &&& final(buffers)@ == old(buffers)@.skip(buffer_count(data_type@) as int)
                &&& wf(a@)
                &&& dtv_of(a@) == data_type@
                &&& crate::model::fsb_free(data_type@)
                &&& varbin_header_spec(
                    old(field_nodes)@,
                    old(buffers)@,
                    body@,
                    block_offset as int,
                    is_little_endian,
                    compression,
                    data_type@ is LargeList,
                    version,
                ) == Ok::<(FieldNode, Option<Seq<bool>>, Seq<int>), DecodeError>(
                    (old(field_nodes)@[0], a@->List_validity, a@->List_offsets),
                )
            },
            Err(e) => (old(field_nodes)@.len() == 0 ==> e == DecodeError::Corruption && final(field_nodes)@ == old(field_nodes)@ && final(buffers)@ == old(buffers)@),
        },
        varbin_header_spec(
            old(field_nodes)@,
            old(buffers)@,
            body@,
            block_offset as int,
            is_little_endian,
            compression,
            data_type@ is LargeList,
            version,
        ) matches Err(he) ==> r == Err::<ListArray, DecodeError>(he),
    decreases dtv_height(data_type@), 0nat,
{
    let large = match &data_type {
        DataType::LargeList(_) => true,
        _ => false,
    };
    let (node, length, validity, offsets) = match read_varbin_header(
        field_nodes,
        buffers,
        body,
        block_offset,
        is_little_endian,
        compression,
        large,
        version,
    ) {
        Ok(t) => t,
        Err(e) => {
            return Err(e);
        },
    };
    proof {
        assert(field_nodes@ =~= old(field_nodes)@.skip(1));
    }
    if ipc_field.fields.len() < 1 {
        return Err(DecodeError::SchemaMismatch);
    }
    let child_field = ListArray::get_child_field(&data_type);
    proof {
        assert(dtv_height(child_field.data_type@) < dtv_height(data_type@));
    }
    let values = match read(
        field_nodes,
        child_field,
        &ipc_field.fields[0],
        buffers,
        body,
        dictionaries,
        block_offset,
        is_little_endian,
        compression,
        version,
    ) {
        Ok(a) => a,
        Err(e) => {
            return Err(e);
        },
    };
    proof {
        assert(crate::array::list::is_list_of(data_type@, dtv_of(values@)));
    }
    match assemble_list(data_type, offsets, values, validity) {
        Ok(a) => {
            proof {
                assert(field_nodes@ =~= old(field_nodes)@.skip(node_count(dtv_of(a@)) as int));
                assert(buffers@ =~= old(buffers)@.skip(buffer_count(dtv_of(a@)) as int));
            }
            Ok(a)
        },
        Err(e) => Err(e),
    }
}

/// Builds the struct array at the end of one struct decode; the loop has
/// already pinned every child's shape, so construction cannot fail.
#[verifier::rlimit(50)]
#[verifier::spinoff_prover]
fn assemble_struct(data_type: DataType, children: Vec<Array>, validity: Option<Bitmap>) -> (a:
    StructArray)
    requires
        data_type@ is Struct,
        struct_fields_of(data_type@).len() >= 1,
        children@.len() == struct_fields_of(data_type@).len(),
        forall|j: int| 0 <= j < children@.len() ==> wf(#[trigger] children@[j]@),
        forall|j: int|
            0 <= j < children@.len() ==> dtv_of(#[trigger] children@[j]@) == struct_fields_of(
                data_type@,
            )[j].data_type,
        forall|j: int|
            0 <= j < children@.len() ==> len_of(#[trigger] children@[j]@) == len_of(
                children@[0]@,
            ),
        crate::model::validity_ok(crate::bitmap::validity_view(validity), len_of(children@[0]@)),
    ensures
        a@ == (Av::Struct {
            fields: struct_fields_of(data_type@),
            children: arrays_view(children@),
            validity: crate::bitmap::validity_view(validity),
        }),
        wf(a@),
{
    match StructArray::try_new(data_type, children, validity) {
        Ok(a) => a,
        Err(_) => {
            proof {
                assert(false);
            }
            unreached()
        },
    }
}

/// Reads one struct array: one field node, the validity slot, then one
/// child per declared field in order, each of which must come back with
/// the struct node's own length.
#[verifier::loop_isolation(false)]
#[verifier::rlimit(100)]
#[verifier::spinoff_prover]
pub fn read_struct(
    field_nodes: &mut NodeQueue,
    data_type: DataType,
    ipc_field: &IpcField,
    buffers: &mut BufferQueue,
    body: &Vec<u8>,
    dictionaries: &Dictionaries,
    block_offset: u64,
    is_little_endian: bool,
    compression: Option<Compression>,
    version: Version,
) -> (r: Result<StructArray, DecodeError>)
    requires
        data_type@ is Struct,
        resolver_wf(dictionaries@),
    ensures
        match r {
            Ok(a) => {
                &&& old(field_nodes)@.len() >= node_count(data_type@)
                &&& old(buffers)@.len() >= buffer_count(data_type@)
                &&& final(field_nodes)@ == old(field_nodes)@.skip(
                    node_count(data_type@) as int,
                )
                &&& final(buffers)@ == old(buffers)@.skip(buffer_count(data_type@) as int)
                &&& wf(a@)
                &&& dtv_of(a@) == data_type@
                &&& len_of(a@) == old(field_nodes)@[0].length
                &&& crate::model::fsb_free(data_type@)
                &&& validity_spec(
                    body@,
                    block_offset as int,
                    compression,
                    old(buffers)@[0],
                    old(field_nodes)@[0].null_count as int,
                    old(field_nodes)@[0].length as int,
                ) == Ok::<Option<Seq<bool>>, DecodeError>(a@->Struct_validity)
            },
            Err(e) => (old(field_nodes)@.len() == 0 ==> e == DecodeError::Corruption && final(field_nodes)@ == old(field_nodes)@ && final(buffers)@ == old(buffers)@),
        },
        (old(field_nodes)@.len() >= 1 && !length_ok(old(field_nodes)@[0].length)) ==> r == Err::<
            StructArray,
            DecodeError,
        >(DecodeError::Corruption),
        (old(field_nodes)@.len() >= 1 && length_ok(old(field_nodes)@[0].length) && old(
            buffers,
        )@.len() == 0) ==> r == Err::<StructArray, DecodeError>(DecodeError::Corruption),
        (old(field_nodes)@.len() >= 1 && length_ok(old(field_nodes)@[0].length) && old(
            buffers,
        )@.len() >= 1) ==> (validity_spec(
            body@,
            block_offset as int,
            compression,
            old(buffers)@[0],
            old(field_nodes)@[0].null_count as int,
            old(field_nodes)@[0].length as int,
        ) matches Err(ve) ==> r == Err::<StructArray, DecodeError>(ve)),
        (old(field_nodes)@.len() >= 1 && length_ok(old(field_nodes)@[0].length) && old(
            buffers,
        )@.len() >= 1 && validity_spec(
            body@,
            block_offset as int,
            compression,
            old(buffers)@[0],
            old(field_nodes)@[0].null_count as int,
            old(field_nodes)@[0].length as int,
        ) is Ok && (struct_fields_of(data_type@).len() == 0 || ipc_field.fields@.len()
            != struct_fields_of(data_type@).len())) ==> r == Err::<StructArray, DecodeError>(
            DecodeError::SchemaMismatch,
        ),
    decreases dtv_height(data_type@), 0nat,
{
    let ghost fsv = struct_fields_of(data_type@);
    let ghost ipcs = ipc_field.fields@;
    let node = match field_nodes.pop_field_node() {
        Ok(n) => n,
        Err(e) => {
            return Err(e);
        },
    };
    let length = match node_length(node) {
        Ok(n) => n,
        Err(e) => {
            return Err(e);
        },
    };
    let validity = match read_validity(buffers, node, length, body, block_offset, compression) {
        Ok(v) => v,
        Err(e) => {
            return Err(e);
        },
    };
    let fields = StructArray::get_fields(&data_type);
    let n: usize = fields.len();
    if n == 0 {
        return Err(DecodeError::SchemaMismatch);
    }
    if ipc_field.fields.len() != n {
        return Err(DecodeError::SchemaMismatch);
    }
    let ghost glen = node.length as int;
    let mut children: Vec<Array> = Vec::new();
    let mut i: usize = 0;
    proof {
        assert(fsv == fields_view(fields@));
        assert(fsv.take(0) =~= Seq::<crate::datatypes::Fieldv>::empty());
        assert(field_nodes@ =~= old(field_nodes)@.skip(1 + nodes_of_fields(fsv.take(0)) as int));
        assert(buffers@ =~= old(buffers)@.skip(1 + buffers_of_fields(fsv.take(0)) as int));
    }
    while i < n
        invariant
            n == fields@.len(),
            fsv == fields_view(fields@),
            data_type@ is Struct,
            struct_fields_of(data_type@) == fsv,
            resolver_wf(dictionaries@),
            ipcs == ipc_field.fields@,
            ipcs.len() == n,
            glen == node.length,
            length as int == glen,
            0 <= i <= n,
            children@.len() == i,
            forall|j: int| 0 <= j < i ==> wf(#[trigger] children@[j]@),
            forall|j: int| 0 <= j < i ==> dtv_of(#[trigger] children@[j]@) == fsv[j].data_type,
            forall|j: int| 0 <= j < i ==> len_of(#[trigger] children@[j]@) == length,
            forall|j: int| 0 <= j < i ==> crate::model::fsb_free((#[trigger] fsv[j]).data_type),
            old(field_nodes)@.len() >= 1 + nodes_of_fields(fsv.take(i as int)),
            old(buffers)@.len() >= 1 + buffers_of_fields(fsv.take(i as int)),
            field_nodes@ == old(field_nodes)@.skip(1 + nodes_of_fields(fsv.take(i as int)) as int),
            buffers@ == old(buffers)@.skip(1 + buffers_of_fields(fsv.take(i as int)) as int),
        decreases n - i,
    {
        proof {
            lemma_fields_height(fsv, i as int);
            assert(fsv[i as int] == fields@[i as int]@);
        }
        let child = match read(
            field_nodes,
            &fields[i],
            &ipc_field.fields[i],
            buffers,
            body,
            dictionaries,
            block_offset,
            is_little_endian,
            compression,
            version,
        ) {
            Ok(a) => a,
            Err(e) => {
                return Err(e);
            },
        };
        if child.len() != length {
            return Err(DecodeError::SchemaMismatch);
        }
        children.push(child);
        proof {
            lemma_fields_counts_step(fsv, i as int);
            crate::model::lemma_counts_take_le(fsv, i as int + 1);
            assert(field_nodes@ =~= old(field_nodes)@.skip(
                1 + nodes_of_fields(fsv.take(i as int + 1)) as int,
            ));
            assert(buffers@ =~= old(buffers)@.skip(
                1 + buffers_of_fields(fsv.take(i as int + 1)) as int,
            ));
        }
        i = i + 1;
    }
    proof {
        crate::model::lemma_take_all(fsv);
        assert(fsv.take(n as int) == fsv);
    }
    let a = assemble_struct(data_type, children, validity);
    Ok(a)
}

/// Reads one dictionary-encoded array: one field node, the validity slot,
/// one keys buffer; the values come from the resolver, never from the
/// queues. An unregistered id is `DictionaryNotFound`; a schema node
/// without an id is `SchemaMismatch`; a registered values array whose type
/// disagrees with the declared values type is `SchemaMismatch`; a valid
/// key outside the values is `Corruption`.
pub fn read_dictionary(
    field_nodes: &mut NodeQueue,
    data_type: DataType,
    ipc_field: &IpcField,
    buffers: &mut BufferQueue,
    body: &Vec<u8>,
    dictionaries: &Dictionaries,
    block_offset: u64,
    is_little_endian: bool,
    compression: Option<Compression>,
) -> (r: Result<DictionaryArray, DecodeError>)
    requires
        data_type@ is Dictionary,
        resolver_wf(dictionaries@),
    ensures
        ipc_field.dictionary_id is None ==> r == Err::<DictionaryArray, DecodeError>(
            DecodeError::SchemaMismatch,
        ) && final(field_nodes)@ == old(field_nodes)@ && final(buffers)@ == old(buffers)@,
        (ipc_field.dictionary_id matches Some(id) && !dictionaries@.contains_key(id as int))
            ==> r == Err::<DictionaryArray, DecodeError>(DecodeError::DictionaryNotFound) && final(field_nodes)@ == old(field_nodes)@ && final(buffers)@ == old(buffers)@,
        (ipc_field.dictionary_id matches Some(id) && dictionaries@.contains_key(id as int) && old(field_nodes)@.len() == 0) ==> r == Err::<DictionaryArray, DecodeError>(DecodeError::Corruption),
        match r {
            Ok(a) => {
                &&& old(field_nodes)@.len() >= 1
                &&& old(buffers)@.len() >= 2
                &&& final(field_nodes)@ == old(field_nodes)@.drop_first()
                &&& final(buffers)@ == old(buffers)@.skip(2)
                &&& wf(a@)
                &&& dtv_of(a@) == data_type@
                &&& len_of(a@) == old(field_nodes)@[0].length
                &&& (ipc_field.dictionary_id matches Some(id) && *a@->Dictionary_values
                    == dictionaries@[id as int])
                &&& primitive_spec(
                    old(field_nodes)@[0],
                    old(buffers)@[0],
                    old(buffers)@[1],
                    body@,
                    block_offset as int,
                    is_little_endian,
                    compression,
                    crate::datatypes::kind_dtv(data_type@->Dictionary_0),
                ) matches Ok(kv) && a@->Dictionary_keys == kv->Primitive_values
                    && a@->Dictionary_key_validity == kv->Primitive_validity
            },
            Err(e) => true,
        },
        ({
            let sr = dict_queue_spec(
                data_type@->Dictionary_0,
                *data_type@->Dictionary_1,
                *ipc_field,
                old(field_nodes)@,
                old(buffers)@,
                body@,
                block_offset as int,
                is_little_endian,
                compression,
                dictionaries@,
            );
            match r {
                Ok(a) => sr == Ok::<Av, DecodeError>(a@),
                Err(e) => sr == Err::<Av, DecodeError>(e),
            }
        }),
{
    let id: i64 = match &ipc_field.dictionary_id {
        Option::Some(i) => *i,
        Option::None => {
            return Err(DecodeError::SchemaMismatch);
        },
    };
    let values = match dictionaries.get(id) {
        Option::Some(v) => v.duplicate(),
        Option::None => {
            return Err(DecodeError::DictionaryNotFound);
        },
    };
    let key_kind = match &data_type {
        DataType::Dictionary(k, _) => *k,
        _ => {
            proof {
                assert(false);
            }
            unreached()
        },
    };
    let keys = match read_primitive(
        field_nodes,
        kind_data_type(key_kind),
        buffers,
        body,
        block_offset,
        is_little_endian,
        compression,
    ) {
        Ok(k) => k,
        Err(e) => {
            return Err(e);
        },
    };
    match DictionaryArray::try_new(data_type, keys, Box::new(values)) {
        Ok(a) => Ok(a),
        Err(e) => Err(e),
    }
}

/// The recursive decode of one array of the declared type, consuming
/// exactly the nodes and buffers of its physical kind (`node_count`,
/// `buffer_count`) from the shared queues. An unrecognized-but-declared
/// physical kind is an explicit `UnsupportedTypeError`, never a silent
/// default.
#[verifier::rlimit(100)]
#[verifier::spinoff_prover]
pub fn read(
    field_nodes: &mut NodeQueue,
    field: &Field,
    ipc_field: &IpcField,
    buffers: &mut BufferQueue,
    body: &Vec<u8>,
    dictionaries: &Dictionaries,
    block_offset: u64,
    is_little_endian: bool,
    compression: Option<Compression>,
    version: Version,
) -> (r: Result<Array, DecodeError>)
    requires
        resolver_wf(dictionaries@),
    ensures
        match r {
            Ok(a) => {
                &&& wf(a@)
                &&& dtv_of(a@) == field.data_type@
                &&& crate::model::fsb_free(field.data_type@)
                &&& old(field_nodes)@.len() >= node_count(field.data_type@)
                &&& old(buffers)@.len() >= buffer_count(field.data_type@)
                &&& final(field_nodes)@ == old(field_nodes)@.skip(
                    node_count(field.data_type@) as int,
                )
                &&& final(buffers)@ == old(buffers)@.skip(
                    buffer_count(field.data_type@) as int,
                )
            },
            Err(e) => {
                &&& (field.data_type@ is FixedSizeBinary ==> e == DecodeError::UnsupportedType
                    && final(field_nodes)@ == old(field_nodes)@ && final(buffers)@ == old(buffers)@)
                &&& (!(field.data_type@ is FixedSizeBinary) && !(field.data_type@ is Dictionary)
                    && old(field_nodes)@.len() == 0 ==> e == DecodeError::Corruption)
            },
        },
        prim_kind(field.data_type@) is Some ==> (match r {
            Ok(a) => primitive_queue_spec(
                old(field_nodes)@,
                old(buffers)@,
                body@,
                block_offset as int,
                is_little_endian,
                compression,
                field.data_type@,
            ) == Ok::<Av, DecodeError>(a@),
            Err(e) => primitive_queue_spec(
                old(field_nodes)@,
                old(buffers)@,
                body@,
                block_offset as int,
                is_little_endian,
                compression,
                field.data_type@,
            ) == Err::<Av, DecodeError>(e),
        }),
        field.data_type@ == Dtv::Boolean ==> (match r {
            Ok(a) => boolean_queue_spec(
                old(field_nodes)@,
                old(buffers)@,
                body@,
                block_offset as int,
                compression,
            ) == Ok::<Av, DecodeError>(a@),
            Err(e) => boolean_queue_spec(
                old(field_nodes)@,
                old(buffers)@,
                body@,
                block_offset as int,
                compression,
            ) == Err::<Av, DecodeError>(e),
        }),
        is_varbin(field.data_type@) ==> (match r {
            Ok(a) => binary_queue_spec(
                old(field_nodes)@,
                old(buffers)@,
                body@,
                block_offset as int,
                is_little_endian,
                compression,
                field.data_type@,
                version,
            ) == Ok::<Av, DecodeError>(a@),
            Err(e) => binary_queue_spec(
                old(field_nodes)@,
                old(buffers)@,
                body@,
                block_offset as int,
                is_little_endian,
                compression,
                field.data_type@,
                version,
            ) == Err::<Av, DecodeError>(e),
        }),
        field.data_type@ is Dictionary ==> (match r {
            Ok(a) => dict_queue_spec(
                field.data_type@->Dictionary_0,
                *field.data_type@->Dictionary_1,
                *ipc_field,
                old(field_nodes)@,
                old(buffers)@,
                body@,
                block_offset as int,
                is_little_endian,
                compression,
                dictionaries@,
            ) == Ok::<Av, DecodeError>(a@),
            Err(e) => dict_queue_spec(
                field.data_type@->Dictionary_0,
                *field.data_type@->Dictionary_1,
                *ipc_field,
                old(field_nodes)@,
                old(buffers)@,
                body@,
                block_offset as int,
                is_little_endian,
                compression,
                dictionaries@,
            ) == Err::<Av, DecodeError>(e),
        }),
        (field.data_type@ is List || field.data_type@ is LargeList) ==> (varbin_header_spec(
            old(field_nodes)@,
            old(buffers)@,
            body@,
            block_offset as int,
            is_little_endian,
            compression,
            field.data_type@ is LargeList,
            version,
        ) matches Err(he) ==> r == Err::<Array, DecodeError>(he)),
        (match r {
            Ok(a) => (field.data_type@ is List || field.data_type@ is LargeList)
                ==> varbin_header_spec(
                old(field_nodes)@,
                old(buffers)@,
                body@,
                block_offset as int,
                is_little_endian,
                compression,
                field.data_type@ is LargeList,
                version,
            ) == Ok::<(FieldNode, Option<Seq<bool>>, Seq<int>), DecodeError>(
                (old(field_nodes)@[0], a@->List_validity, a@->List_offsets),
            ),
            Err(e) => true,
        }),
    decreases dtv_height(field.data_type@), 1nat,
{
    match &field.data_type {
        DataType::Boolean => {
            match read_boolean(
                field_nodes,
                field.data_type.duplicate(),
                buffers,
                body,
                block_offset,
                compression,
            ) {
                Ok(a) => Ok(Array::Boolean(a)),
                Err(e) => Err(e),
            }
        },
        DataType::Utf8 | DataType::LargeUtf8 | DataType::Binary | DataType::LargeBinary => {
            match read_binary(
                field_nodes,
                field.data_type.duplicate(),
                buffers,
                body,
                block_offset,
                is_little_endian,
                compression,
                version,
            ) {
                Ok(a) => {
                    proof {
                        assert(buffers@ =~= old(buffers)@.skip(
                            buffer_count(field.data_type@) as int,
                        ));
                        assert(field_nodes@ =~= old(field_nodes)@.skip(
                            node_count(field.data_type@) as int,
                        ));
                    }
                    Ok(Array::Binary(a))
                },
                Err(e) => Err(e),
            }
        },
        DataType::FixedSizeBinary(_) => Err(DecodeError::UnsupportedType),
        DataType::List(_) | DataType::LargeList(_) => {
            match read_list(
                field_nodes,
                field.data_type.duplicate(),
                ipc_field,
                buffers,
                body,
                dictionaries,
                block_offset,
                is_little_endian,
                compression,
                version,
            ) {
                Ok(a) => Ok(Array::List(a)),
                Err(e) => Err(e),
            }
        },
        DataType::Struct(_) => {
            match read_struct(
                field_nodes,
                field.data_type.duplicate(),
                ipc_field,
                buffers,
                body,
                dictionaries,
                block_offset,
                is_little_endian,
                compression,
                version,
            ) {
                Ok(a) => Ok(Array::Struct(a)),
                Err(e) => Err(e),
            }
        },
        DataType::Dictionary(_, _) => {
            match read_dictionary(
                field_nodes,
                field.data_type.duplicate(),
                ipc_field,
                buffers,
                body,
                dictionaries,
                block_offset,
                is_little_endian,
                compression,
            ) {
                Ok(a) => {
                    proof {
                        assert(field_nodes@ =~= old(field_nodes)@.skip(
                            node_count(field.data_type@) as int,
                        ));
                        assert(buffers@ =~= old(buffers)@.skip(
                            buffer_count(field.data_type@) as int,
                        ));
                    }
                    Ok(Array::Dictionary(a))
                },
                Err(e) => Err(e),
            }
        },
        _ => {
            match read_primitive(
                field_nodes,
                field.data_type.duplicate(),
                buffers,
                body,
                block_offset,
                is_little_endian,
                compression,
            ) {
                Ok(a) => {
                    proof {
                        assert(field_nodes@ =~= old(field_nodes)@.skip(
                            node_count(field.data_type@) as int,
                        ));
                        assert(buffers@ =~= old(buffers)@.skip(
                            buffer_count(field.data_type@) as int,
                        ));
                    }
                    Ok(Array::Primitive(a))
                },
                Err(e) => Err(e),
            }
        },
    }
}

/// Pops `n` buffer descriptors; fewer than `n` remaining is corruption.
#[verifier::loop_isolation(false)]
fn skip_buffers(buffers: &mut BufferQueue, n: usize) -> (r: Result<(), DecodeError>)
    ensures
        match r {
            Ok(_) => old(buffers)@.len() >= n && final(buffers)@ == old(buffers)@.skip(n as int),
            Err(e) => e == DecodeError::Corruption && old(buffers)@.len() < n,
        },
{
    let mut i: usize = 0;
    while i < n
        invariant
            0 <= i <= n,
            old(buffers)@.len() >= i,
            buffers@ == old(buffers)@.skip(i as int),
        decreases n - i,
    {
        match buffers.pop_buffer() {
            Ok(_) => {},
            Err(e) => {
                return Err(e);
            },
        }
        proof {
            assert(buffers@ =~= old(buffers)@.skip(i as int + 1));
        }
        i = i + 1;
    }
    Ok(())
}

/// Walks one declared type without materializing it, consuming exactly the
/// nodes and buffers `read` would consume (`node_count`, `buffer_count`).
pub fn skip(
    field_nodes: &mut NodeQueue,
    data_type: &DataType,
    buffers: &mut BufferQueue,
) -> (r: Result<(), DecodeError>)
    ensures
        match r {
            Ok(_) => {
                &&& old(field_nodes)@.len() >= node_count(data_type@)
                &&& old(buffers)@.len() >= buffer_count(data_type@)
                &&& final(field_nodes)@ == old(field_nodes)@.skip(node_count(data_type@) as int)
                &&& final(buffers)@ == old(buffers)@.skip(buffer_count(data_type@) as int)
            },
            Err(e) => {
                &&& (data_type@ is FixedSizeBinary ==> e == DecodeError::UnsupportedType && final(field_nodes)@ == old(field_nodes)@ && final(buffers)@ == old(buffers)@)
                &&& (!(data_type@ is FixedSizeBinary) && old(field_nodes)@.len() == 0 ==> e
                    == DecodeError::Corruption && final(field_nodes)@ == old(field_nodes)@
                    && final(buffers)@ == old(buffers)@)
            },
        },
        (crate::model::fsb_free(data_type@) && old(field_nodes)@.len() >= node_count(data_type@)
            && old(buffers)@.len() >= buffer_count(data_type@)) ==> r is Ok,
    decreases dtv_height(data_type@), 1nat,
{
    match data_type {
        DataType::Boolean => skip_flat(field_nodes, buffers, 2),
        DataType::Utf8 | DataType::LargeUtf8 | DataType::Binary | DataType::LargeBinary => {
            let r = skip_flat(field_nodes, buffers, 3);
            proof {
                assert(buffer_count(data_type@) == 3);
            }
            r
        },
        DataType::FixedSizeBinary(_) => Err(DecodeError::UnsupportedType),
        DataType::List(_) | DataType::LargeList(_) => skip_list(field_nodes, data_type, buffers),
        DataType::Struct(_) => skip_struct(field_nodes, data_type, buffers),
        DataType::Dictionary(_, _) => skip_flat(field_nodes, buffers, 2),
        _ => skip_flat(field_nodes, buffers, 2),
    }
}

/// Consumes one field node and `nbuf` buffer slots: the traversal of every
/// non-nested kind.
fn skip_flat(field_nodes: &mut NodeQueue, buffers: &mut BufferQueue, nbuf: usize) -> (r: Result<
    (),
    DecodeError,
>)
    ensures
        match r {
            Ok(_) => {
                &&& old(field_nodes)@.len() >= 1
                &&& old(buffers)@.len() >= nbuf
                &&& final(field_nodes)@ == old(field_nodes)@.skip(1)
                &&& final(buffers)@ == old(buffers)@.skip(nbuf as int)
            },
            Err(e) => {
                &&& e == DecodeError::Corruption
                &&& (old(field_nodes)@.len() == 0 || old(buffers)@.len() < nbuf)
                &&& (old(field_nodes)@.len() == 0 ==> final(field_nodes)@ == old(field_nodes)@
                    && final(buffers)@ == old(buffers)@)
            },
        },
{
    match field_nodes.pop_field_node() {
        Ok(_) => {},
        Err(e) => {
            return Err(e);
        },
    }
    proof {
        assert(field_nodes@ =~= old(field_nodes)@.skip(1));
    }
    skip_buffers(buffers, nbuf)
}

/// Skips one list array: one node, the validity and offsets slots, then
/// the one child, recursively.
pub fn skip_list(
    field_nodes: &mut NodeQueue,
    data_type: &DataType,
    buffers: &mut BufferQueue,
) -> (r: Result<(), DecodeError>)
    requires
        data_type@ is List || data_type@ is LargeList,
    ensures
        match r {
            Ok(_) => {
                &&& old(field_nodes)@.len() >= node_count(data_type@)
                &&& old(buffers)@.len() >= buffer_count(data_type@)
                &&& final(field_nodes)@ == old(field_nodes)@.skip(node_count(data_type@) as int)
                &&& final(buffers)@ == old(buffers)@.skip(buffer_count(data_type@) as int)
            },
            Err(e) => (old(field_nodes)@.len() == 0 ==> e == DecodeError::Corruption && final(field_nodes)@ == old(field_nodes)@ && final(buffers)@ == old(buffers)@),
        },
        (old(field_nodes)@.len() >= 1 && old(buffers)@.len() < 2) ==> r == Err::<
            (),
            DecodeError,
        >(DecodeError::Corruption) && final(field_nodes)@ == old(field_nodes)@.drop_first(),
        (crate::model::fsb_free(data_type@) && old(field_nodes)@.len() >= node_count(data_type@)
            && old(buffers)@.len() >= buffer_count(data_type@)) ==> r is Ok,
    decreases dtv_height(data_type@), 0nat,
{
    match field_nodes.pop_field_node() {
        Ok(_) => {},
        Err(e) => {
            return Err(e);
        },
    }
    proof {
        assert(field_nodes@ =~= old(field_nodes)@.skip(1));
    }
    match skip_buffers(buffers, 2) {
        Ok(_) => {},
        Err(e) => {
            return Err(e);
        },
    }
    let child = ListArray::get_child_type(data_type);
    proof {
        assert(dtv_height(child@) < dtv_height(data_type@));
    }
    match skip(field_nodes, child, buffers) {
        Ok(_) => {
            proof {
                assert(field_nodes@ =~= old(field_nodes)@.skip(node_count(data_type@) as int));
                assert(buffers@ =~= old(buffers)@.skip(buffer_count(data_type@) as int));
            }
            Ok(())
        },
        Err(e) => Err(e),
    }
}

/// Skips one struct array: one node, the validity slot, then each declared
/// child in order, recursively.
#[verifier::loop_isolation(false)]
fn skip_struct(
    field_nodes: &mut NodeQueue,
    data_type: &DataType,
    buffers: &mut BufferQueue,
) -> (r: Result<(), DecodeError>)
    requires
        data_type@ is Struct,
    ensures
        match r {
            Ok(_) => {
                &&& old(field_nodes)@.len() >= node_count(data_type@)
                &&& old(buffers)@.len() >= buffer_count(data_type@)
                &&& final(field_nodes)@ == old(field_nodes)@.skip(node_count(data_type@) as int)
                &&& final(buffers)@ == old(buffers)@.skip(buffer_count(data_type@) as int)
            },
            Err(e) => (old(field_nodes)@.len() == 0 ==> e == DecodeError::Corruption && final(field_nodes)@ == old(field_nodes)@ && final(buffers)@ == old(buffers)@),
        },
        (crate::model::fsb_free(data_type@) && old(field_nodes)@.len() >= node_count(data_type@)
            && old(buffers)@.len() >= buffer_count(data_type@)) ==> r is Ok,
    decreases dtv_height(data_type@), 0nat,
{
    let ghost fsv = struct_fields_of(data_type@);
    match field_nodes.pop_field_node() {
        Ok(_) => {},
        Err(e) => {
            return Err(e);
        },
    }
    proof {
        assert(field_nodes@ =~= old(field_nodes)@.skip(1));
    }
    match skip_buffers(buffers, 1) {
        Ok(_) => {},
        Err(e) => {
            return Err(e);
        },
    }
    let fields = StructArray::get_fields(data_type);
    let n: usize = fields.len();
    let mut i: usize = 0;
    proof {
        assert(fsv == fields_view(fields@));
        assert(fsv.take(0) =~= Seq::<crate::datatypes::Fieldv>::empty());
        assert(field_nodes@ =~= old(field_nodes)@.skip(1 + nodes_of_fields(fsv.take(0)) as int));
        assert(buffers@ =~= old(buffers)@.skip(1 + buffers_of_fields(fsv.take(0)) as int));
    }
    while i < n
        invariant
            n == fields@.len(),
            fsv == fields_view(fields@),
            data_type@ is Struct,
            struct_fields_of(data_type@) == fsv,
            0 <= i <= n,
            old(field_nodes)@.len() >= 1 + nodes_of_fields(fsv.take(i as int)),
            old(buffers)@.len() >= 1 + buffers_of_fields(fsv.take(i as int)),
            field_nodes@ == old(field_nodes)@.skip(1 + nodes_of_fields(fsv.take(i as int)) as int),
            buffers@ == old(buffers)@.skip(1 + buffers_of_fields(fsv.take(i as int)) as int),
        decreases n - i,
    {
        proof {
            lemma_fields_height(fsv, i as int);
            assert(fsv[i as int] == fields@[i as int]@);
            lemma_fields_counts_step(fsv, i as int);
            crate::model::lemma_counts_take_le(fsv, i as int + 1);
        }
        match skip(field_nodes, &fields[i].data_type, buffers) {
            Ok(_) => {},
            Err(e) => {
                return Err(e);
            },
        }
        proof {
            lemma_fields_counts_step(fsv, i as int);
            assert(field_nodes@ =~= old(field_nodes)@.skip(
                1 + nodes_of_fields(fsv.take(i as int + 1)) as int,
            ));
            assert(buffers@ =~= old(buffers)@.skip(
                1 + buffers_of_fields(fsv.take(i as int + 1)) as int,
            ));
        }
        i = i + 1;
    }
    proof {
        crate::model::lemma_take_all(fsv);
        assert(fsv.take(n as int) == fsv);
    }
    Ok(())
}

} // verus!
