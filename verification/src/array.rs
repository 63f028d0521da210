//! The closed set of array variants the decoder produces, and helpers that
//! work uniformly over it: length, declared type, deep copy, and the empty
//! and all-null constructors.

use vstd::prelude::*;

pub mod binary;
pub mod boolean;
pub mod dictionary;
pub mod list;
pub mod primitive;
pub mod struct_;

use crate::array::binary::{offsets_view, BinaryArray};
use crate::array::boolean::BooleanArray;
use crate::array::dictionary::DictionaryArray;
use crate::array::list::ListArray;
use crate::array::primitive::PrimitiveArray;
use crate::array::struct_::{build_children, StructArray};
use crate::bitmap::{validity_view, Bitmap};
use crate::datatypes::{
    fields_view, kind_dtv, lemma_fields_view_index, lemma_fields_view_len, prim_kind, DataType,
    Dtv, IntKind,
};
use crate::model::{dtv_of, len_of, offsets_wf, wf, Av};

verus! {

/// One decoded array value of any physical kind.
pub enum Array {
    Primitive(PrimitiveArray),
    Boolean(BooleanArray),
    Binary(BinaryArray),
    List(ListArray),
    Struct(StructArray),
    Dictionary(DictionaryArray),
}

impl View for Array {
    type V = Av;

    open spec fn view(&self) -> Av
        decreases self,
    {
        match self {
            Array::Primitive(a) => a@,
            Array::Boolean(a) => a@,
            Array::Binary(a) => a@,
            Array::List(a) => a@,
            Array::Struct(a) => a@,
            Array::Dictionary(a) => a@,
        }
    }
}

/// The ghost values of a vector of arrays.
pub open spec fn arrays_view(s: Seq<Array>) -> Seq<Av>
    decreases s,
{
    if s.len() == 0 {
        Seq::empty()
    } else {
        arrays_view(s.drop_last()).push(s.last()@)
    }
}

/// `arrays_view` preserves length.
pub broadcast proof fn lemma_arrays_view_len(s: Seq<Array>)
    ensures
        #[trigger] arrays_view(s).len() == s.len(),
    decreases s,
{
    reveal_with_fuel(arrays_view, 2);
    if s.len() > 0 {
        lemma_arrays_view_len(s.drop_last());
    }
}

/// `arrays_view` indexes pointwise.
pub broadcast proof fn lemma_arrays_view_index(s: Seq<Array>, i: int)
    requires
        0 <= i < s.len(),
    ensures
        #[trigger] arrays_view(s)[i] == s[i]@,
    decreases s,
{
    reveal_with_fuel(arrays_view, 2);
    lemma_arrays_view_len(s);
    if i < s.len() - 1 {
        lemma_arrays_view_index(s.drop_last(), i);
    } else {
        lemma_arrays_view_len(s.drop_last());
    }
}

/// Every logical type except `FixedSizeBinary` (recognized but not
/// materialized) has an array representation.
pub open spec fn materializable(d: Dtv) -> bool
    decreases d,
{
    match d {
        Dtv::FixedSizeBinary(_) => false,
        Dtv::List(f) => materializable(f.data_type),
        Dtv::LargeList(f) => materializable(f.data_type),
        Dtv::Struct(fs) => fs.len() >= 1 && (forall|i: int|
            0 <= i < fs.len() ==> materializable(#[trigger] fs[i].data_type)),
        Dtv::Dictionary(_, v) => materializable(*v),
        _ => true,
    }
}

impl Array {
    /// The element count.
    pub fn len(&self) -> (n: usize)
        requires
            wf(self@),
        ensures
            n as int == len_of(self@),
        decreases *self,
    {
        broadcast use
            crate::array::primitive::lemma_primitive_shape,
            crate::array::boolean::lemma_boolean_shape,
            crate::array::binary::lemma_binary_shape,
            crate::array::list::lemma_list_shape,
            crate::array::struct_::lemma_struct_shape,
            crate::array::dictionary::lemma_dictionary_shape;

        match self {
            Array::Primitive(a) => a.len(),
            Array::Boolean(a) => a.len(),
            Array::Binary(a) => a.len(),
            Array::List(a) => a.len(),
            Array::Struct(a) => a.len(),
            Array::Dictionary(a) => a.len(),
        }
    }

    /// The declared type.
    pub fn data_type(&self) -> (dt: &DataType)
        requires
            wf(self@),
        ensures
            dt@ == dtv_of(self@),
    {
        broadcast use
            crate::array::primitive::lemma_primitive_shape,
            crate::array::boolean::lemma_boolean_shape,
            crate::array::binary::lemma_binary_shape,
            crate::array::list::lemma_list_shape,
            crate::array::struct_::lemma_struct_shape,
            crate::array::dictionary::lemma_dictionary_shape;

        match self {
            Array::Primitive(a) => a.data_type(),
            Array::Boolean(a) => a.data_type(),
            Array::Binary(a) => a.data_type(),
            Array::List(a) => a.data_type(),
            Array::Struct(a) => a.data_type(),
            Array::Dictionary(a) => a.data_type(),
        }
    }

    /// A deep copy with the same ghost value.
    pub fn duplicate(&self) -> (r: Array)
        ensures
            r@ == self@,
        decreases *self,
    {
        match self {
            Array::Primitive(a) => Array::Primitive(a.duplicate()),
            Array::Boolean(a) => Array::Boolean(a.duplicate()),
            Array::Binary(a) => Array::Binary(a.duplicate()),
            Array::List(a) => Array::List(a.duplicate()),
            Array::Struct(a) => Array::Struct(a.duplicate()),
            Array::Dictionary(a) => Array::Dictionary(a.duplicate()),
        }
    }
}

/// Deep copies of a vector of arrays, element by element.
pub fn duplicate_arrays(v: &Vec<Array>) -> (r: Vec<Array>)
    ensures
        r@.len() == v@.len(),
        forall|i: int| 0 <= i < v@.len() ==> #[trigger] arrays_view(r@)[i] == arrays_view(v@)[i],
    decreases v,
{
    broadcast use lemma_arrays_view_len, lemma_arrays_view_index;

    let n: usize = v.len();
    let mut out: Vec<Array> = Vec::new();
    let mut i: usize = 0;
    while i < n
        invariant
            n == v@.len(),
            0 <= i <= n,
            out@.len() == i,
            forall|j: int| 0 <= j < i ==> #[trigger] out@[j]@ == v@[j]@,
        decreases n - i,
    {
        out.push(v[i].duplicate());
        i = i + 1;
    }
    out
}

/// The exec data type whose view is the kind's primitive type.
pub fn kind_data_type(k: IntKind) -> (dt: DataType)
    ensures
        dt@ == kind_dtv(k),
{
    match k {
        IntKind::Int8 => DataType::Int8,
        IntKind::Int16 => DataType::Int16,
        IntKind::Int32 => DataType::Int32,
        IntKind::Int64 => DataType::Int64,
        IntKind::UInt8 => DataType::UInt8,
        IntKind::UInt16 => DataType::UInt16,
        IntKind::UInt32 => DataType::UInt32,
        IntKind::UInt64 => DataType::UInt64,
    }
}

/// The validity of a fresh sized array: all-null when `nulls` is set,
/// absent otherwise.
pub open spec fn null_validity(length: int, nulls: bool) -> Option<Seq<bool>> {
    if nulls {
        Some(Seq::new(length as nat, |i: int| false))
    } else {
        None
    }
}

/// The exact ghost value of a fresh sized array of `length` elements:
/// zeroed values, zeroed offsets, empty nested children and dictionary
/// values, and an all-null validity when `nulls` is set.
pub open spec fn sized_av(dt: Dtv, length: int, nulls: bool) -> Av
    decreases dt,
{
    match dt {
        Dtv::Boolean => Av::Boolean {
            dt,
            values: Seq::new(length as nat, |i: int| false),
            validity: null_validity(length, nulls),
        },
        Dtv::Utf8 | Dtv::LargeUtf8 | Dtv::Binary | Dtv::LargeBinary => Av::VarBin {
            dt,
            offsets: Seq::new((length + 1) as nat, |i: int| 0),
            data: Seq::empty(),
            validity: null_validity(length, nulls),
        },
        Dtv::List(f) => Av::List {
            dt,
            offsets: Seq::new((length + 1) as nat, |i: int| 0),
            child: Box::new(sized_av(f.data_type, 0, false)),
            validity: null_validity(length, nulls),
        },
        Dtv::LargeList(f) => Av::List {
            dt,
            offsets: Seq::new((length + 1) as nat, |i: int| 0),
            child: Box::new(sized_av(f.data_type, 0, false)),
            validity: null_validity(length, nulls),
        },
        Dtv::Struct(fs) => Av::Struct {
            fields: fs,
            children: sized_children(fs, length, nulls),
            validity: null_validity(length, nulls),
        },
        Dtv::Dictionary(k, v) => Av::Dictionary {
            dt,
            key_kind: k,
            keys: Seq::new(length as nat, |i: int| 0),
            key_validity: null_validity(length, nulls),
            values: Box::new(sized_av(*v, 0, false)),
        },
        Dtv::FixedSizeBinary(_) => Av::Boolean {
            dt: Dtv::Boolean,
            values: Seq::empty(),
            validity: None,
        },
        _ => Av::Primitive {
            dt,
            kind: prim_kind(dt)->Some_0,
            values: Seq::new(length as nat, |i: int| 0),
            validity: null_validity(length, nulls),
        },
    }
}

/// The fresh sized children of a struct type, one per declared field.
pub open spec fn sized_children(fs: Seq<crate::datatypes::Fieldv>, length: int, nulls: bool) -> Seq<
    Av,
>
    decreases fs,
{
    if fs.len() == 0 {
        Seq::empty()
    } else {
        sized_children(fs.drop_last(), length, nulls).push(
            sized_av(fs.last().data_type, length, nulls),
        )
    }
}

/// `sized_children` indexes pointwise.
pub broadcast proof fn lemma_sized_children_index(
    fs: Seq<crate::datatypes::Fieldv>,
    length: int,
    nulls: bool,
    i: int,
)
    requires
        0 <= i < fs.len(),
    ensures
        sized_children(fs, length, nulls).len() == fs.len(),
        #[trigger] sized_children(fs, length, nulls)[i] == sized_av(fs[i].data_type, length, nulls),
    decreases fs,
{
    lemma_sized_children_len(fs, length, nulls);
    if i < fs.len() - 1 {
        lemma_sized_children_index(fs.drop_last(), length, nulls, i);
    } else {
        lemma_sized_children_len(fs.drop_last(), length, nulls);
    }
}

/// `sized_children` preserves length.
pub broadcast proof fn lemma_sized_children_len(
    fs: Seq<crate::datatypes::Fieldv>,
    length: int,
    nulls: bool,
)
    ensures
        #[trigger] sized_children(fs, length, nulls).len() == fs.len(),
    decreases fs,
{
    if fs.len() > 0 {
        lemma_sized_children_len(fs.drop_last(), length, nulls);
    }
}

/// An empty (zero-element) array of the given type, built bottom-up through
/// the validating constructors.
pub fn new_empty_array(data_type: DataType) -> (r: Array)
    requires
        materializable(data_type@),
    ensures
        wf(r@),
        dtv_of(r@) == data_type@,
        len_of(r@) == 0,
        r@ == sized_av(data_type@, 0, false),
{
    new_sized_array(&data_type, 0, false)
}

/// An all-null array of the given type and length. Dictionary children get
/// empty values and all-null keys; nested children are themselves null.
pub fn new_null_array(data_type: DataType, length: usize) -> (r: Array)
    requires
        materializable(data_type@),
    ensures
        wf(r@),
        dtv_of(r@) == data_type@,
        len_of(r@) == length,
        r@ == sized_av(data_type@, length as int, true),
{
    new_sized_array(&data_type, length, true)
}

/// A vector of `n` zero values.
fn zeros_i128(n: usize) -> (r: Vec<i128>)
    ensures
        r@.len() == n,
        forall|j: int| 0 <= j < n ==> r@[j] == 0i128,
{
    let mut values: Vec<i128> = Vec::new();
    let mut i: usize = 0;
    while i < n
        invariant
            0 <= i <= n,
            values@.len() == i,
            forall|j: int| 0 <= j < i ==> values@[j] == 0i128,
        decreases n - i,
    {
        values.push(0i128);
        i = i + 1;
    }
    values
}

/// A vector of `n + 1` zero offsets.
fn zero_offsets(n: usize) -> (r: Vec<i64>)
    ensures
        r@.len() == n + 1,
        forall|j: int| 0 <= j < n + 1 ==> r@[j] == 0i64,
{
    let mut offsets: Vec<i64> = Vec::new();
    offsets.push(0i64);
    let mut i: usize = 0;
    while i < n
        invariant
            0 <= i <= n,
            offsets@.len() == i + 1,
            forall|j: int| 0 <= j < i + 1 ==> offsets@[j] == 0i64,
        decreases n - i,
    {
        offsets.push(0i64);
        i = i + 1;
    }
    offsets
}

/// Shared body of `new_empty_array` and `new_null_array`: an array of
/// `length` elements, all null when `nulls` is set (an empty array carries
/// no validity bitmap).
#[verifier::loop_isolation(false)]
#[verifier::rlimit(100)]
#[verifier::spinoff_prover]
pub fn new_sized_array(data_type: &DataType, length: usize, nulls: bool) -> (r: Array)
    requires
        materializable(data_type@),
        nulls || length == 0,
    ensures
        wf(r@),
        dtv_of(r@) == data_type@,
        len_of(r@) == length,
        r@ == sized_av(data_type@, length as int, nulls),
    decreases *data_type,
{
    broadcast use
        lemma_sized_children_len,
        lemma_sized_children_index,
        lemma_arrays_view_len,
        lemma_arrays_view_index,
        lemma_fields_view_len,
        lemma_fields_view_index;

    let validity: Option<Bitmap> = if nulls {
        Option::Some(Bitmap::new_zeroed(length))
    } else {
        Option::None
    };
    proof {
        if nulls {
            assert(validity_view(validity)->Some_0 =~= null_validity(length as int, true)->Some_0);
        }
        assert(validity_view(validity) == null_validity(length as int, nulls));
    }
    match data_type {
        DataType::Boolean => {
            let bvals = Bitmap::new_zeroed(length);
            proof {
                assert(bvals@ =~= Seq::new(length as nat, |i: int| false));
            }
            let a = BooleanArray::new(data_type.duplicate(), bvals, validity);
            proof {
                assert(a@ =~= sized_av(data_type@, length as int, nulls));
            }
            Array::Boolean(a)
        },
        DataType::FixedSizeBinary(_) => {
            proof {
                assert(false);
            }
            unreached()
        },
        DataType::Utf8 | DataType::LargeUtf8 | DataType::Binary | DataType::LargeBinary => {
            let offsets = zero_offsets(length);
            proof {
                let ov = offsets_view(offsets@);
                assert forall|j: int| 0 <= j < ov.len() implies #[trigger] ov[j] == 0 by {}
                assert(offsets_wf(ov, crate::model::offset_max(data_type@)));
                assert(ov.last() == 0);
            }
            let a = match BinaryArray::try_new(data_type.duplicate(), offsets, Vec::new(), validity) {
                Ok(a) => a,
                Err(_) => {
                    proof {
                        assert(false);
                    }
                    unreached()
                },
            };
            proof {
                assert(a@->VarBin_offsets =~= Seq::new((length + 1) as nat, |i: int| 0));
                assert(a@->VarBin_data =~= Seq::<u8>::empty());
                assert(a@ =~= sized_av(data_type@, length as int, nulls));
            }
            Array::Binary(a)
        },
        DataType::List(f) | DataType::LargeList(f) => {
            let child = new_sized_array(&f.data_type, 0, false);
            let offsets = zero_offsets(length);
            proof {
                let ov = offsets_view(offsets@);
                assert forall|j: int| 0 <= j < ov.len() implies #[trigger] ov[j] == 0 by {}
                assert(offsets_wf(ov, crate::model::offset_max(data_type@)));
                assert(ov.last() == 0);
            }
            let a = match ListArray::try_new(
                data_type.duplicate(),
                offsets,
                Box::new(child),
                validity,
            ) {
                Ok(a) => a,
                Err(_) => {
                    proof {
                        assert(false);
                    }
                    unreached()
                },
            };
            proof {
                assert(a@->List_offsets =~= Seq::new((length + 1) as nat, |i: int| 0));
                assert(a@ =~= sized_av(data_type@, length as int, nulls));
            }
            Array::List(a)
        },
        DataType::Struct(fs) => {
            proof {
                lemma_fields_view_len(fs@);
                assert forall|i: int| 0 <= i < fs@.len() implies materializable(
                    #[trigger] fs@[i]@.data_type,
                ) by {
                    lemma_fields_view_index(fs@, i);
                }
            }
            let children = build_children(fs, length, nulls);
            proof {
                assert forall|i: int|
                    0 <= i < children@.len() implies wf(#[trigger] children@[i]@) by {
                    assert(arrays_view(children@)[i] == children@[i]@);
                }
                assert forall|i: int|
                    0 <= i < arrays_view(children@).len() implies dtv_of(
                    #[trigger] arrays_view(children@)[i],
                ) == struct_fields_view(data_type@)[i].data_type by {
                    lemma_fields_view_index(fs@, i);
                }
            }
            let a = StructArray::new(data_type.duplicate(), children, validity);
            proof {
                assert forall|j: int|
                    0 <= j < arrays_view(children@).len() implies #[trigger] arrays_view(
                    children@,
                )[j] == sized_children(fields_view(fs@), length as int, nulls)[j] by {
                    lemma_sized_children_index(fields_view(fs@), length as int, nulls, j);
                    lemma_fields_view_index(fs@, j);
                }
                lemma_sized_children_len(fields_view(fs@), length as int, nulls);
                assert(arrays_view(children@) =~= sized_children(
                    fields_view(fs@),
                    length as int,
                    nulls,
                ));
                assert(a@ =~= sized_av(data_type@, length as int, nulls));
            }
            Array::Struct(a)
        },
        DataType::Dictionary(k, v) => {
            let keys = PrimitiveArray::new(kind_data_type(*k), zeros_i128(length), validity);
            let values = new_sized_array(v, 0, false);
            let a = match DictionaryArray::try_new(
                data_type.duplicate(),
                keys,
                Box::new(values),
            ) {
                Ok(a) => a,
                Err(_) => {
                    proof {
                        assert(false);
                    }
                    unreached()
                },
            };
            proof {
                assert(a@->Dictionary_keys =~= Seq::new(length as nat, |i: int| 0));
                assert(a@ =~= sized_av(data_type@, length as int, nulls));
            }
            Array::Dictionary(a)
        },
        _ => {
            let values = zeros_i128(length);
            let a = PrimitiveArray::new(data_type.duplicate(), values, validity);
            proof {
                assert(a@->Primitive_values =~= Seq::new(length as nat, |i: int| 0));
                assert(a@ =~= sized_av(data_type@, length as int, nulls));
            }
            Array::Primitive(a)
        },
    }
}

/// The declared fields of a struct type (ghost).
pub open spec fn struct_fields_view(dt: Dtv) -> Seq<crate::datatypes::Fieldv> {
    crate::array::struct_::struct_fields_of(dt)
}

} // verus!
