//! Struct arrays: an ordered set of equally long child arrays, one per
//! declared field, with an optional validity bitmap over the rows.

use vstd::prelude::*;

use crate::array::{arrays_view, duplicate_arrays, materializable, new_sized_array, Array};
use crate::bitmap::{duplicate_validity, validity_view, Bitmap};
use crate::datatypes::{
    duplicate_fields, fields_view, lemma_fields_view_index, lemma_fields_view_len, DataType, Dtv,
    Field, Fieldv,
};
use crate::error::DecodeError;
use crate::model::{dtv_of, len_of, validity_ok, wf, Av};

verus! {

/// The declared fields of a struct type (empty for any other type).
pub open spec fn struct_fields_of(dt: Dtv) -> Seq<Fieldv> {
    match dt {
        Dtv::Struct(fs) => fs,
        _ => Seq::empty(),
    }
}

/// The conditions under which a struct array may be built: a struct type
/// with at least one field, one child per field with exactly the declared
/// type, all children of one length, and a validity of that length.
pub open spec fn struct_args_ok(dt: Dtv, children: Seq<Av>, validity: Option<Seq<bool>>) -> bool {
    &&& dt is Struct
    &&& struct_fields_of(dt).len() >= 1
    &&& children.len() == struct_fields_of(dt).len()
    &&& forall|i: int|
        0 <= i < children.len() ==> dtv_of(#[trigger] children[i]) == struct_fields_of(
            dt,
        )[i].data_type
    &&& forall|i: int|
        0 <= i < children.len() ==> len_of(#[trigger] children[i]) == len_of(children[0])
    &&& validity_ok(validity, len_of(children[0]))
}

/// A nested array: multiple equally long child arrays with an optional
/// validity over the rows.
pub struct StructArray {
    data_type: DataType,
    values: Vec<Array>,
    validity: Option<Bitmap>,
}

impl View for StructArray {
    type V = Av;

    closed spec fn view(&self) -> Av
        decreases self,
    {
        Av::Struct {
            fields: struct_fields_of(self.data_type@),
            children: arrays_view(self.values@),
            validity: validity_view(self.validity),
        }
    }
}

impl StructArray {
    /// Builds a struct array, validating every invariant.
    ///
    /// Fails (always with `SchemaMismatch`) iff `data_type` is not a struct
    /// type, its field list is empty, the number of children differs from
    /// the number of fields, some child's declared type differs from its
    /// field, some child's length differs from the first child's, or a
    /// validity bitmap is present whose length is not the common child
    /// length.
    #[verifier::loop_isolation(false)]
    pub fn try_new(data_type: DataType, values: Vec<Array>, validity: Option<Bitmap>) -> (r:
        Result<StructArray, DecodeError>)
        requires
            forall|i: int| 0 <= i < values@.len() ==> wf(#[trigger] values@[i]@),
        ensures
            r is Ok <==> struct_args_ok(
                data_type@,
                arrays_view(values@),
                validity_view(validity),
            ),
            match r {
                Ok(a) => {
                    &&& a@ == (Av::Struct {
                        fields: struct_fields_of(data_type@),
                        children: arrays_view(values@),
                        validity: validity_view(validity),
                    })
                    &&& wf(a@)
                },
                Err(e) => e == DecodeError::SchemaMismatch,
            },
    {
        broadcast use
            crate::array::lemma_arrays_view_len,
            crate::array::lemma_arrays_view_index,
            crate::datatypes::lemma_fields_view_len,
            crate::datatypes::lemma_fields_view_index;

        let ghost gchildren = arrays_view(values@);
        let fields_len: usize = match &data_type {
            DataType::Struct(fs) => {
                proof {
                    lemma_fields_view_len(fs@);
                }
                fs.len()
            },
            _ => {
                return Err(DecodeError::SchemaMismatch);
            },
        };
        if fields_len == 0 {
            return Err(DecodeError::SchemaMismatch);
        }
        if fields_len != values.len() {
            return Err(DecodeError::SchemaMismatch);
        }
        let n: usize = values.len();
        let mut i: usize = 0;
        while i < n
            invariant
                n == values@.len(),
                gchildren == arrays_view(values@),
                data_type@ is Struct,
                struct_fields_of(data_type@).len() == n,
                forall|j: int| 0 <= j < n ==> wf(#[trigger] values@[j]@),
                0 <= i <= n,
                forall|j: int|
                    0 <= j < i ==> dtv_of(#[trigger] gchildren[j]) == struct_fields_of(
                        data_type@,
                    )[j].data_type,
            decreases n - i,
        {
            let declared = match &data_type {
                DataType::Struct(fs) => {
                    proof {
                        lemma_fields_view_index(fs@, i as int);
                    }
                    &fs[i].data_type
                },
                _ => {
                    proof {
                        assert(false);
                    }
                    unreached()
                },
            };
            if !declared.same_as(values[i].data_type()) {
                proof {
                    assert(dtv_of(gchildren[i as int]) != struct_fields_of(
                        data_type@,
                    )[i as int].data_type);
                }
                return Err(DecodeError::SchemaMismatch);
            }
            i = i + 1;
        }
        let len0: usize = values[0].len();
        let mut i: usize = 1;
        while i < n
            invariant
                n == values@.len(),
                n >= 1,
                gchildren == arrays_view(values@),
                forall|j: int| 0 <= j < n ==> wf(#[trigger] values@[j]@),
                len0 as int == len_of(gchildren[0]),
                1 <= i <= n,
                forall|j: int| 0 <= j < i ==> len_of(#[trigger] gchildren[j]) == len0 as int,
            decreases n - i,
        {
            if values[i].len() != len0 {
                proof {
                    assert(len_of(gchildren[i as int]) != len_of(gchildren[0]));
                }
                return Err(DecodeError::SchemaMismatch);
            }
            i = i + 1;
        }
        match &validity {
            Option::Some(b) => {
                if b.len() != len0 {
                    proof {
                        assert(!validity_ok(validity_view(validity), len_of(gchildren[0])));
                    }
                    return Err(DecodeError::SchemaMismatch);
                }
            },
            Option::None => {},
        }
        let a = StructArray { data_type, values, validity };
        proof {
            assert(struct_args_ok(a.data_type@, gchildren, validity_view(a.validity)));
            assert(wf(a@));
        }
        Ok(a)
    }

    /// Builds a struct array whose inputs already satisfy the invariants.
    pub fn new(data_type: DataType, values: Vec<Array>, validity: Option<Bitmap>) -> (a:
        StructArray)
        requires
            forall|i: int| 0 <= i < values@.len() ==> wf(#[trigger] values@[i]@),
            struct_args_ok(data_type@, arrays_view(values@), validity_view(validity)),
        ensures
            a@ == (Av::Struct {
                fields: struct_fields_of(data_type@),
                children: arrays_view(values@),
                validity: validity_view(validity),
            }),
            wf(a@),
    {
        broadcast use
            crate::array::lemma_arrays_view_len,
            crate::array::lemma_arrays_view_index,
            crate::datatypes::lemma_fields_view_len,
            crate::datatypes::lemma_fields_view_index;

        match Self::try_new(data_type, values, validity) {
            Ok(a) => a,
            Err(_) => {
                proof {
                    assert(false);
                }
                unreached()
            },
        }
    }

    /// Alias for `new`.
    pub fn from_data(data_type: DataType, values: Vec<Array>, validity: Option<Bitmap>) -> (a:
        StructArray)
        requires
            forall|i: int| 0 <= i < values@.len() ==> wf(#[trigger] values@[i]@),
            struct_args_ok(data_type@, arrays_view(values@), validity_view(validity)),
        ensures
            a@ == (Av::Struct {
                fields: struct_fields_of(data_type@),
                children: arrays_view(values@),
                validity: validity_view(validity),
            }),
            wf(a@),
    {
        Self::new(data_type, values, validity)
    }

    /// An empty struct array of the given struct type.
    pub fn new_empty(data_type: DataType) -> (a: StructArray)
        requires
            data_type@ is Struct,
            struct_fields_of(data_type@).len() >= 1,
            materializable(data_type@),
        ensures
            wf(a@),
            a@ == crate::array::sized_av(data_type@, 0, false),
            a@->Struct_fields == struct_fields_of(data_type@),
            len_of(a@) == 0,
            a@->Struct_validity is None,
    {
        broadcast use
            crate::array::lemma_arrays_view_len,
            crate::array::lemma_arrays_view_index,
            crate::datatypes::lemma_fields_view_len,
            crate::datatypes::lemma_fields_view_index;

        let values = match &data_type {
            DataType::Struct(fs) => {
                proof {
                    assert forall|i: int| 0 <= i < fs@.len() implies materializable(
                        #[trigger] fs@[i]@.data_type,
                    ) by {
                        assert(fields_view(fs@)[i] == fs@[i]@);
                    }
                }
                let vs = build_children(fs, 0, false);
                proof {
                    assert forall|i: int| 0 <= i < vs@.len() implies wf(#[trigger] vs@[i]@) by {
                        assert(arrays_view(vs@)[i] == vs@[i]@);
                    }
                    assert(struct_fields_of(data_type@) == fields_view(fs@));
                    assert(struct_args_ok(
                        data_type@,
                        arrays_view(vs@),
                        validity_view(Option::None),
                    ));
                }
                vs
            },
            _ => {
                proof {
                    assert(false);
                }
                unreached()
            },
        };
        let ghost gdt = data_type@;
        let a = Self::new(data_type, values, Option::None);
        proof {
            let fsv = struct_fields_of(gdt);
            assert forall|j: int|
                0 <= j < a@->Struct_children.len() implies #[trigger] a@->Struct_children[j]
                == crate::array::sized_children(fsv, 0, false)[j] by {
                crate::array::lemma_sized_children_index(fsv, 0, false, j);
            }
            crate::array::lemma_sized_children_len(fsv, 0, false);
            assert(a@->Struct_children =~= crate::array::sized_children(fsv, 0, false));
            assert(a@ =~= crate::array::sized_av(gdt, 0, false));
        }
        a
    }

    /// An all-null struct array of the given struct type and length.
    pub fn new_null(data_type: DataType, length: usize) -> (a: StructArray)
        requires
            data_type@ is Struct,
            struct_fields_of(data_type@).len() >= 1,
            materializable(data_type@),
        ensures
            wf(a@),
            a@ == crate::array::sized_av(data_type@, length as int, true),
            a@->Struct_fields == struct_fields_of(data_type@),
            len_of(a@) == length,
            a@->Struct_validity matches Some(v) && v.len() == length && (forall|i: int|
                0 <= i < length ==> !v[i]),
    {
        broadcast use
            crate::array::lemma_arrays_view_len,
            crate::array::lemma_arrays_view_index,
            crate::datatypes::lemma_fields_view_len,
            crate::datatypes::lemma_fields_view_index;

        let values = match &data_type {
            DataType::Struct(fs) => {
                proof {
                    assert forall|i: int| 0 <= i < fs@.len() implies materializable(
                        #[trigger] fs@[i]@.data_type,
                    ) by {
                        assert(fields_view(fs@)[i] == fs@[i]@);
                    }
                }
                let vs = build_children(fs, length, true);
                proof {
                    assert forall|i: int| 0 <= i < vs@.len() implies wf(#[trigger] vs@[i]@) by {
                        assert(arrays_view(vs@)[i] == vs@[i]@);
                    }
                    assert(struct_fields_of(data_type@) == fields_view(fs@));
                }
                vs
            },
            _ => {
                proof {
                    assert(false);
                }
                unreached()
            },
        };
        let validity = Bitmap::new_zeroed(length);
        proof {
            assert forall|i: int| 0 <= i < values@.len() implies wf(#[trigger] values@[i]@) by {
                assert(arrays_view(values@)[i] == values@[i]@);
            }
            assert(struct_args_ok(
                data_type@,
                arrays_view(values@),
                validity_view(Option::Some(validity)),
            ));
        }
        let ghost gdt = data_type@;
        let a = Self::new(data_type, values, Option::Some(validity));
        proof {
            let fsv = struct_fields_of(gdt);
            assert forall|j: int|
                0 <= j < a@->Struct_children.len() implies #[trigger] a@->Struct_children[j]
                == crate::array::sized_children(fsv, length as int, true)[j] by {
                crate::array::lemma_sized_children_index(fsv, length as int, true, j);
            }
            crate::array::lemma_sized_children_len(fsv, length as int, true);
            assert(a@->Struct_children =~= crate::array::sized_children(fsv, length as int, true));
            assert(a@->Struct_validity->Some_0 =~= crate::array::null_validity(
                length as int,
                true,
            )->Some_0);
            assert(a@ =~= crate::array::sized_av(gdt, length as int, true));
        }
        a
    }

    /// Deconstructs the array into its fields, children and validity.
    pub fn into_data(self) -> (r: (Vec<Field>, Vec<Array>, Option<Bitmap>))
        requires
            self@->Struct_fields.len() >= 1,
        ensures
            fields_view(r.0@) == self@->Struct_fields,
            arrays_view(r.1@) == self@->Struct_children,
            validity_view(r.2) == self@->Struct_validity,
    {
        let StructArray { data_type, values, validity } = self;
        let fields = match data_type {
            DataType::Struct(fs) => fs,
            _ => {
                proof {
                    assert(false);
                }
                unreached()
            },
        };
        (fields, values, validity)
    }

    /// The same rows with another validity bitmap.
    pub fn with_validity(&self, validity: Option<Bitmap>) -> (a: StructArray)
        requires
            wf(self@),
            validity_ok(validity_view(validity), len_of(self@)),
        ensures
            a@ == (Av::Struct {
                fields: self@->Struct_fields,
                children: self@->Struct_children,
                validity: validity_view(validity),
            }),
            wf(a@),
    {
        let values = duplicate_arrays(&self.values);
        proof {
            broadcast use crate::array::lemma_arrays_view_len, crate::array::lemma_arrays_view_index;

            assert(arrays_view(values@) =~= arrays_view(self.values@));
        }
        StructArray { data_type: self.data_type.duplicate(), values, validity }
    }

    /// The number of rows.
    pub fn len(&self) -> (n: usize)
        requires
            wf(self@),
        ensures
            n as int == len_of(self@),
        decreases *self,
    {
        proof {
            crate::array::lemma_arrays_view_len(self.values@);
            crate::array::lemma_arrays_view_index(self.values@, 0);
        }
        self.values[0].len()
    }

    /// The declared type.
    pub fn data_type(&self) -> (dt: &DataType)
        requires
            self@->Struct_fields.len() >= 1,
        ensures
            dt@ == dtv_of(self@),
    {
        &self.data_type
    }

    /// The optional validity.
    pub fn validity(&self) -> (v: &Option<Bitmap>)
        ensures
            validity_view(*v) == self@->Struct_validity,
    {
        &self.validity
    }

    /// The child arrays.
    pub fn values(&self) -> (v: &Vec<Array>)
        ensures
            arrays_view(v@) == self@->Struct_children,
    {
        &self.values
    }

    /// The declared fields of this array's struct type.
    pub fn fields(&self) -> (f: &Vec<Field>)
        requires
            self@->Struct_fields.len() >= 1,
        ensures
            fields_view(f@) == self@->Struct_fields,
    {
        match &self.data_type {
            DataType::Struct(fs) => fs,
            _ => {
                proof {
                    assert(false);
                }
                unreached()
            },
        }
    }

    /// The fields of a struct data type; errs on any other type.
    pub fn try_get_fields(data_type: &DataType) -> (r: Result<&Vec<Field>, DecodeError>)
        ensures
            r is Ok <==> data_type@ is Struct,
            match r {
                Ok(fs) => fields_view(fs@) == struct_fields_of(data_type@),
                Err(e) => e == DecodeError::SchemaMismatch,
            },
    {
        match data_type {
            DataType::Struct(fs) => Ok(fs),
            _ => Err(DecodeError::SchemaMismatch),
        }
    }

    /// The fields of a data type already known to be a struct type.
    pub fn get_fields(data_type: &DataType) -> (fs: &Vec<Field>)
        requires
            data_type@ is Struct,
        ensures
            fields_view(fs@) == struct_fields_of(data_type@),
    {
        match Self::try_get_fields(data_type) {
            Ok(fs) => fs,
            Err(_) => {
                proof {
                    assert(false);
                }
                unreached()
            },
        }
    }

    /// A deep copy with the same view.
    pub fn duplicate(&self) -> (r: StructArray)
        ensures
            r@ == self@,
        decreases *self,
    {
        let values = duplicate_arrays(&self.values);
        proof {
            broadcast use crate::array::lemma_arrays_view_len, crate::array::lemma_arrays_view_index;

            assert(arrays_view(values@) =~= arrays_view(self.values@));
        }
        StructArray {
            data_type: self.data_type.duplicate(),
            values,
            validity: duplicate_validity(&self.validity),
        }
    }
}

/// One child per declared field, each of the given length; all-null
/// children when `nulls` is set.
#[verifier::loop_isolation(false)]
pub fn build_children(fs: &Vec<Field>, length: usize, nulls: bool) -> (r: Vec<Array>)
    requires
        forall|i: int| 0 <= i < fs@.len() ==> materializable(#[trigger] fs@[i]@.data_type),
        nulls || length == 0,
    ensures
        r@.len() == fs@.len(),
        forall|i: int| 0 <= i < r@.len() ==> wf(#[trigger] arrays_view(r@)[i]),
        forall|i: int| 0 <= i < r@.len() ==> dtv_of(#[trigger] arrays_view(r@)[i]) == fs@[i]@.data_type,
        forall|i: int| 0 <= i < r@.len() ==> len_of(#[trigger] arrays_view(r@)[i]) == length,
        forall|i: int|
            0 <= i < r@.len() ==> #[trigger] arrays_view(r@)[i] == crate::array::sized_av(
                fs@[i]@.data_type,
                length as int,
                nulls,
            ),
    decreases fs,
{
    broadcast use
        crate::array::lemma_arrays_view_len,
        crate::array::lemma_arrays_view_index,
        crate::datatypes::lemma_fields_view_len,
        crate::datatypes::lemma_fields_view_index;

    let n: usize = fs.len();
    let mut out: Vec<Array> = Vec::new();
    let mut i: usize = 0;
    while i < n
        invariant
            n == fs@.len(),
            forall|j: int| 0 <= j < n ==> materializable(#[trigger] fs@[j]@.data_type),
            0 <= i <= n,
            out@.len() == i,
            forall|j: int| 0 <= j < i ==> wf(#[trigger] arrays_view(out@)[j]),
            forall|j: int|
                0 <= j < i ==> dtv_of(#[trigger] arrays_view(out@)[j]) == fs@[j]@.data_type,
            forall|j: int| 0 <= j < i ==> len_of(#[trigger] arrays_view(out@)[j]) == length,
            forall|j: int|
                0 <= j < i ==> #[trigger] arrays_view(out@)[j] == crate::array::sized_av(
                    fs@[j]@.data_type,
                    length as int,
                    nulls,
                ),
        decreases n - i,
    {
        proof {
            assert(materializable(fs@[i as int]@.data_type));
        }
        let child = new_sized_array(&fs[i].data_type, length, nulls);
        let ghost old_out = out@;
        out.push(child);
        proof {
            assert forall|j: int| 0 <= j < i + 1 implies wf(#[trigger] arrays_view(out@)[j])
                && dtv_of(arrays_view(out@)[j]) == fs@[j]@.data_type && len_of(
                arrays_view(out@)[j],
            ) == length && arrays_view(out@)[j] == crate::array::sized_av(
                fs@[j]@.data_type,
                length as int,
                nulls,
            ) by {
                assert(arrays_view(out@)[j] == out@[j]@);
                if j < i {
                    assert(out@[j] == old_out[j]);
                    assert(arrays_view(old_out)[j] == old_out[j]@);
                }
            }
        }
        i = i + 1;
    }
    out
}

/// Every value of this type views into the `Struct` variant.
pub broadcast proof fn lemma_struct_shape(a: StructArray)
    ensures
        (#[trigger] a@) is Struct,
{
}

} // verus!
