//! Boolean arrays: a bit-vector of values plus an optional validity bitmap.

use vstd::prelude::*;

use crate::bitmap::{duplicate_validity, validity_view, Bitmap};
use crate::datatypes::{DataType, Dtv};
use crate::error::DecodeError;
use crate::model::{is_valid_at, validity_ok, wf, Av};

verus! {

/// An immutable array of booleans with an optional validity bitmap.
pub struct BooleanArray {
    data_type: DataType,
    values: Bitmap,
    validity: Option<Bitmap>,
}

impl View for BooleanArray {
    type V = Av;

    closed spec fn view(&self) -> Av {
        Av::Boolean {
            dt: self.data_type@,
            values: self.values@,
            validity: validity_view(self.validity),
        }
    }
}

impl BooleanArray {
    /// Builds a boolean array, validating every invariant.
    ///
    /// Fails with `SchemaMismatch` iff `data_type` is not `Boolean` or a
    /// validity bitmap is present with a length other than the element
    /// count.
    pub fn try_new(data_type: DataType, values: Bitmap, validity: Option<Bitmap>) -> (r: Result<
        BooleanArray,
        DecodeError,
    >)
        ensures
            match r {
                Ok(a) => {
                    &&& data_type@ == Dtv::Boolean
                    &&& a@ == (Av::Boolean {
                        dt: data_type@,
                        values: values@,
                        validity: validity_view(validity),
                    })
                    &&& wf(a@)
                },
                Err(e) => {
                    &&& e == DecodeError::SchemaMismatch
                    &&& (data_type@ != Dtv::Boolean || !validity_ok(
                        validity_view(validity),
                        values@.len() as int,
                    ))
                },
            },
    {
        match &data_type {
            DataType::Boolean => {},
            _ => {
                return Err(DecodeError::SchemaMismatch);
            },
        }
        match &validity {
            Option::Some(b) => {
                if b.len() != values.len() {
                    return Err(DecodeError::SchemaMismatch);
                }
            },
            Option::None => {},
        }
        Ok(BooleanArray { data_type, values, validity })
    }

    /// Builds a boolean array whose inputs already satisfy the invariants.
    pub fn new(data_type: DataType, values: Bitmap, validity: Option<Bitmap>) -> (a: BooleanArray)
        requires
            data_type@ == Dtv::Boolean,
            validity_ok(validity_view(validity), values@.len() as int),
        ensures
            a@ == (Av::Boolean { dt: data_type@, values: values@, validity: validity_view(validity) }),
            wf(a@),
    {
        match Self::try_new(data_type, values, validity) {
            Ok(a) => a,
            Err(_) => {
                proof {
                    assert(false);
                }
                unreached()
            },
        }
    }

    /// An all-null boolean array of the given length.
    pub fn new_null(data_type: DataType, length: usize) -> (a: BooleanArray)
        requires
            data_type@ == Dtv::Boolean,
        ensures
            a@->Boolean_values.len() == length,
            forall|i: int| 0 <= i < length ==> !a@->Boolean_values[i],
            a@->Boolean_validity matches Some(v) && v.len() == length && (forall|i: int|
                0 <= i < length ==> !v[i]),
            wf(a@),
    {
        let values = Bitmap::new_zeroed(length);
        let validity = Bitmap::new_zeroed(length);
        Self::new(data_type, values, Option::Some(validity))
    }

    pub fn len(&self) -> (n: usize)
        ensures
            n as int == self@->Boolean_values.len(),
    {
        self.values.len()
    }

    pub fn data_type(&self) -> (dt: &DataType)
        ensures
            dt@ == self@->Boolean_dt,
    {
        &self.data_type
    }

    pub fn value(&self, i: usize) -> (b: bool)
        requires
            i < self@->Boolean_values.len(),
        ensures
            b == self@->Boolean_values[i as int],
    {
        self.values.get(i)
    }

    pub fn validity(&self) -> (v: &Option<Bitmap>)
        ensures
            validity_view(*v) == self@->Boolean_validity,
    {
        &self.validity
    }

    /// Whether element `i` is valid.
    pub fn is_valid(&self, i: usize) -> (b: bool)
        requires
            i < self@->Boolean_values.len(),
            validity_ok(self@->Boolean_validity, self@->Boolean_values.len() as int),
        ensures
            b == is_valid_at(self@->Boolean_validity, i as int),
    {
        match &self.validity {
            Option::Some(bm) => bm.get(i),
            Option::None => true,
        }
    }

    /// A deep copy with the same view.
    pub fn duplicate(&self) -> (r: BooleanArray)
        ensures
            r@ == self@,
    {
        BooleanArray {
            data_type: self.data_type.duplicate(),
            values: self.values.duplicate(),
            validity: duplicate_validity(&self.validity),
        }
    }
}

/// Every value of this type views into the `Boolean` variant.
pub broadcast proof fn lemma_boolean_shape(a: BooleanArray)
    ensures
        (#[trigger] a@) is Boolean,
{
}

} // verus!
