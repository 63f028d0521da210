//! The ghost model of array values. Every exec array type views into `Av`;
//! contracts and the structural invariants are stated here, over `Seq`, `int`
//! and `Option<Seq<bool>>`.

use vstd::prelude::*;

use crate::datatypes::{kind_max, kind_min, prim_kind, Dtv, Fieldv, IntKind};

verus! {

/// The logical value of an array: its declared type information, its
/// element data, and its optional validity (`None` means "all valid").
#[verifier::ext_equal]
pub enum Av {
    Primitive { dt: Dtv, kind: IntKind, values: Seq<int>, validity: Option<Seq<bool>> },
    Boolean { dt: Dtv, values: Seq<bool>, validity: Option<Seq<bool>> },
    VarBin { dt: Dtv, offsets: Seq<int>, data: Seq<u8>, validity: Option<Seq<bool>> },
    List { dt: Dtv, offsets: Seq<int>, child: Box<Av>, validity: Option<Seq<bool>> },
    Struct { fields: Seq<Fieldv>, children: Seq<Av>, validity: Option<Seq<bool>> },
    Dictionary {
        dt: Dtv,
        key_kind: IntKind,
        keys: Seq<int>,
        key_validity: Option<Seq<bool>>,
        values: Box<Av>,
    },
}

/// A validity bitmap, when present, covers exactly `len` elements.
pub open spec fn validity_ok(v: Option<Seq<bool>>, len: int) -> bool {
    match v {
        Option::None => true,
        Option::Some(s) => s.len() == len,
    }
}

/// Element `i` is valid under an optional bitmap.
pub open spec fn is_valid_at(v: Option<Seq<bool>>, i: int) -> bool {
    match v {
        Option::None => true,
        Option::Some(s) => s[i],
    }
}

/// Offsets are non-decreasing, start at or above zero, and each fits the
/// wire range `[0, maxv]`.
pub open spec fn offsets_wf(offsets: Seq<int>, maxv: int) -> bool {
    &&& offsets.len() >= 1
    &&& offsets[0] >= 0
    &&& forall|i: int| 0 <= i < offsets.len() - 1 ==> #[trigger] offsets[i] <= offsets[i + 1]
    &&& forall|i: int| 0 <= i < offsets.len() ==> #[trigger] offsets[i] <= maxv
}

/// The largest value an offset of this variable-length type may hold on the
/// wire (4-byte signed for the small kinds, 8-byte signed for the large).
pub open spec fn offset_max(dt: Dtv) -> int {
    match dt {
        Dtv::Utf8 => 2147483647,
        Dtv::Binary => 2147483647,
        Dtv::List(_) => 2147483647,
        _ => 9223372036854775807,
    }
}

/// The number of elements of an array value.
pub open spec fn len_of(a: Av) -> int
    decreases a,
{
    match a {
        Av::Primitive { values, .. } => values.len() as int,
        Av::Boolean { values, .. } => values.len() as int,
        Av::VarBin { offsets, .. } => offsets.len() - 1,
        Av::List { offsets, .. } => offsets.len() - 1,
        Av::Struct { children, .. } => if children.len() > 0 {
            len_of(children[0])
        } else {
            0
        },
        Av::Dictionary { keys, .. } => keys.len() as int,
    }
}

/// The declared type of an array value.
pub open spec fn dtv_of(a: Av) -> Dtv
    decreases a,
{
    match a {
        Av::Primitive { dt, .. } => dt,
        Av::Boolean { dt, .. } => dt,
        Av::VarBin { dt, .. } => dt,
        Av::List { dt, .. } => dt,
        Av::Struct { fields, .. } => Dtv::Struct(fields),
        Av::Dictionary { dt, .. } => dt,
    }
}

/// The structural invariants every constructed array satisfies:
/// offsets are monotone and end at the referenced region's element count,
/// validity lengths match element counts, struct children agree in length
/// and declared type, and valid dictionary keys index into the values.
pub open spec fn wf(a: Av) -> bool
    decreases a,
{
    match a {
        Av::Primitive { dt, kind, values, validity } => {
            &&& prim_kind(dt) == Some(kind)
            &&& validity_ok(validity, values.len() as int)
            &&& forall|i: int|
                0 <= i < values.len() ==> kind_min(kind) <= #[trigger] values[i] <= kind_max(kind)
        },
        Av::Boolean { dt, values, validity } => {
            &&& dt == Dtv::Boolean
            &&& validity_ok(validity, values.len() as int)
        },
        Av::VarBin { dt, offsets, data, validity } => {
            &&& (dt == Dtv::Utf8 || dt == Dtv::LargeUtf8 || dt == Dtv::Binary || dt
                == Dtv::LargeBinary)
            &&& offsets_wf(offsets, offset_max(dt))
            &&& offsets.last() == data.len()
            &&& validity_ok(validity, offsets.len() - 1)
        },
        Av::List { dt, offsets, child, validity } => {
            &&& (dt matches Dtv::List(f) && f.data_type == dtv_of(*child)) || (dt
                matches Dtv::LargeList(f) && f.data_type == dtv_of(*child))
            &&& offsets_wf(offsets, offset_max(dt))
            &&& offsets.last() == len_of(*child)
            &&& validity_ok(validity, offsets.len() - 1)
            &&& wf(*child)
        },
        Av::Struct { fields, children, validity } => {
            &&& fields.len() >= 1
            &&& children.len() == fields.len()
            &&& forall|i: int| 0 <= i < children.len() ==> wf(#[trigger] children[i])
            &&& forall|i: int|
                0 <= i < children.len() ==> dtv_of(#[trigger] children[i]) == fields[i].data_type
            &&& forall|i: int|
                0 <= i < children.len() ==> len_of(#[trigger] children[i]) == len_of(children[0])
            &&& validity_ok(validity, len_of(children[0]))
        },
        Av::Dictionary { dt, key_kind, keys, key_validity, values } => {
            &&& dt == Dtv::Dictionary(key_kind, Box::new(dtv_of(*values)))
            &&& validity_ok(key_validity, keys.len() as int)
            &&& forall|i: int|
                0 <= i < keys.len() ==> kind_min(key_kind) <= #[trigger] keys[i] <= kind_max(
                    key_kind,
                )
            &&& forall|i: int|
                0 <= i < keys.len() && is_valid_at(key_validity, i) ==> 0 <= #[trigger] keys[i]
                    < len_of(*values)
            &&& wf(*values)
        },
    }
}

/// How many field nodes one array of type `d` consumes, recursively.
pub open spec fn node_count(d: Dtv) -> nat
    decreases d,
{
    match d {
        Dtv::List(f) => 1 + node_count(f.data_type),
        Dtv::LargeList(f) => 1 + node_count(f.data_type),
        Dtv::Struct(fs) => 1 + nodes_of_fields(fs),
        _ => 1,
    }
}

/// Field nodes consumed by a list of declared children, left to right.
pub open spec fn nodes_of_fields(fs: Seq<Fieldv>) -> nat
    decreases fs,
{
    if fs.len() == 0 {
        0
    } else {
        nodes_of_fields(fs.drop_last()) + node_count(fs.last().data_type)
    }
}

/// How many buffer descriptors one array of type `d` consumes, recursively.
/// The validity slot is always slot 0 and is always consumed.
pub open spec fn buffer_count(d: Dtv) -> nat
    decreases d,
{
    match d {
        Dtv::Boolean => 2,
        Dtv::Utf8 => 3,
        Dtv::LargeUtf8 => 3,
        Dtv::Binary => 3,
        Dtv::LargeBinary => 3,
        Dtv::List(f) => 2 + buffer_count(f.data_type),
        Dtv::LargeList(f) => 2 + buffer_count(f.data_type),
        Dtv::Struct(fs) => 1 + buffers_of_fields(fs),
        Dtv::Dictionary(_, _) => 2,
        _ => 2,
    }
}

/// Buffer descriptors consumed by a list of declared children.
pub open spec fn buffers_of_fields(fs: Seq<Fieldv>) -> nat
    decreases fs,
{
    if fs.len() == 0 {
        0
    } else {
        buffers_of_fields(fs.drop_last()) + buffer_count(fs.last().data_type)
    }
}

/// Consuming children one at a time adds up: the counts of a prefix extended
/// by its next field.
pub proof fn lemma_fields_counts_step(fs: Seq<Fieldv>, i: int)
    requires
        0 <= i < fs.len(),
    ensures
        nodes_of_fields(fs.take(i + 1)) == nodes_of_fields(fs.take(i)) + node_count(
            fs[i].data_type,
        ),
        buffers_of_fields(fs.take(i + 1)) == buffers_of_fields(fs.take(i)) + buffer_count(
            fs[i].data_type,
        ),
{
    assert(fs.take(i + 1).drop_last() =~= fs.take(i));
    assert(fs.take(i + 1).last() == fs[i]);
}

/// Taking the whole sequence is the sequence.
pub proof fn lemma_take_all<T>(s: Seq<T>)
    ensures
        s.take(s.len() as int) =~= s,
{
}

/// Whether a declared type tree is free of the one recognized physical
/// kind the walkers refuse. The skip walker never enters a dictionary's
/// values type: values come from the resolver, not from the queues.
pub open spec fn fsb_free(d: Dtv) -> bool
    decreases d,
{
    match d {
        Dtv::FixedSizeBinary(_) => false,
        Dtv::List(f) => fsb_free(f.data_type),
        Dtv::LargeList(f) => fsb_free(f.data_type),
        Dtv::Struct(fs) => forall|i: int| 0 <= i < fs.len() ==> fsb_free((#[trigger] fs[i]).data_type),
        _ => true,
    }
}

/// A prefix never counts more nodes or buffers than the whole list.
pub proof fn lemma_counts_take_le(fs: Seq<Fieldv>, i: int)
    requires
        0 <= i <= fs.len(),
    ensures
        nodes_of_fields(fs.take(i)) <= nodes_of_fields(fs),
        buffers_of_fields(fs.take(i)) <= buffers_of_fields(fs),
    decreases fs.len() - i,
{
    if i < fs.len() {
        lemma_fields_counts_step(fs, i);
        lemma_counts_take_le(fs, i + 1);
    } else {
        lemma_take_all(fs);
    }
}

/// Law: every well-formed variable-length or list array — and therefore
/// every one the decoder returns, whose contract guarantees `wf` — has
/// non-decreasing offsets, one more offset than it has elements, and a
/// final offset equal to the referenced data or child region's element
/// count.
pub proof fn lemma_offsets_invariants(a: Av)
    requires
        wf(a),
        a is VarBin || a is List,
    ensures
        a matches Av::VarBin { offsets, data, .. } ==> {
            &&& offsets.len() == len_of(a) + 1
            &&& forall|i: int| 0 <= i < offsets.len() - 1 ==> #[trigger] offsets[i] <= offsets[i + 1]
            &&& offsets[0] >= 0
            &&& offsets.last() == data.len()
        },
        a matches Av::List { offsets, child, .. } ==> {
            &&& offsets.len() == len_of(a) + 1
            &&& forall|i: int| 0 <= i < offsets.len() - 1 ==> #[trigger] offsets[i] <= offsets[i + 1]
            &&& offsets[0] >= 0
            &&& offsets.last() == len_of(*child)
        },
{
}

} // verus!
