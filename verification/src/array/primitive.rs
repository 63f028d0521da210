//! Fixed-width integer arrays. Values are held widened to `i128` so one
//! representation covers every `IntKind`; the well-formedness invariant pins
//! each stored value to its kind's wire range.

use vstd::prelude::*;

use crate::bitmap::{duplicate_validity, validity_view, Bitmap};
use crate::datatypes::{kind_max, kind_min, prim_kind, DataType, IntKind};
use crate::error::DecodeError;
use crate::model::{is_valid_at, validity_ok, wf, Av};

verus! {

/// An immutable array of one integer kind with an optional validity bitmap.
pub struct PrimitiveArray {
    data_type: DataType,
    values: Vec<i128>,
    validity: Option<Bitmap>,
}

/// The integer kind a (well-formed) primitive data type names.
pub open spec fn kind_of_dt(dt: DataType) -> IntKind {
    match prim_kind(dt@) {
        Option::Some(k) => k,
        Option::None => IntKind::Int8,
    }
}

impl View for PrimitiveArray {
    type V = Av;

    closed spec fn view(&self) -> Av {
        Av::Primitive {
            dt: self.data_type@,
            kind: kind_of_dt(self.data_type),
            values: self.values@.map_values(|v: i128| v as int),
            validity: validity_view(self.validity),
        }
    }
}

/// The smallest value of kind `k`, as an `i128`.
pub fn kind_min_value(k: IntKind) -> (r: i128)
    ensures
        r as int == kind_min(k),
{
    match k {
        IntKind::Int8 => -128,
        IntKind::Int16 => -32768,
        IntKind::Int32 => -2147483648,
        IntKind::Int64 => -9223372036854775808,
        IntKind::UInt8 => 0,
        IntKind::UInt16 => 0,
        IntKind::UInt32 => 0,
        IntKind::UInt64 => 0,
    }
}

/// The largest value of kind `k`, as an `i128`.
pub fn kind_max_value(k: IntKind) -> (r: i128)
    ensures
        r as int == kind_max(k),
{
    match k {
        IntKind::Int8 => 127,
        IntKind::Int16 => 32767,
        IntKind::Int32 => 2147483647,
        IntKind::Int64 => 9223372036854775807,
        IntKind::UInt8 => 255,
        IntKind::UInt16 => 65535,
        IntKind::UInt32 => 4294967295,
        IntKind::UInt64 => 18446744073709551615,
    }
}

impl PrimitiveArray {
    /// Builds a primitive array, validating every invariant.
    ///
    /// Fails with `SchemaMismatch` iff `data_type` is not a primitive kind,
    /// some value lies outside the kind's wire range, or a validity bitmap
    /// is present with a length other than the element count.
    #[verifier::loop_isolation(false)]
    pub fn try_new(data_type: DataType, values: Vec<i128>, validity: Option<Bitmap>) -> (r: Result<
        PrimitiveArray,
        DecodeError,
    >)
        ensures
            match r {
                Ok(a) => {
                    &&& prim_kind(data_type@) is Some
                    &&& a@ == (Av::Primitive {
                        dt: data_type@,
                        kind: kind_of_dt(data_type),
                        values: values@.map_values(|v: i128| v as int),
                        validity: validity_view(validity),
                    })
                    &&& wf(a@)
                },
                Err(e) => {
                    &&& e == DecodeError::SchemaMismatch
                    &&& {
                        ||| prim_kind(data_type@) is None
                        ||| exists|i: int|
                            0 <= i < values@.len() && !(kind_min(kind_of_dt(data_type))
                                <= #[trigger] values@[i] as int <= kind_max(kind_of_dt(data_type)))
                        ||| !validity_ok(validity_view(validity), values@.len() as int)
                    }
                },
            },
    {
        let kind = match data_type.primitive_kind() {
            Option::Some(k) => k,
            Option::None => {
                return Err(DecodeError::SchemaMismatch);
            },
        };
        let lo = kind_min_value(kind);
        let hi = kind_max_value(kind);
        let n: usize = values.len();
        let mut i: usize = 0;
        while i < n
            invariant
                n == values@.len(),
                0 <= i <= n,
                lo as int == kind_min(kind),
                hi as int == kind_max(kind),
                forall|j: int| 0 <= j < i ==> lo <= #[trigger] values@[j] <= hi,
            decreases n - i,
        {
            let v = values[i];
            if v < lo || v > hi {
                proof {
                    assert(!(kind_min(kind_of_dt(data_type)) <= values@[i as int] as int
                        <= kind_max(kind_of_dt(data_type))));
                }
                return Err(DecodeError::SchemaMismatch);
            }
            i = i + 1;
        }
        match &validity {
            Option::Some(b) => {
                if b.len() != n {
                    return Err(DecodeError::SchemaMismatch);
                }
            },
            Option::None => {},
        }
        let a = PrimitiveArray { data_type, values, validity };
        proof {
            assert forall|j: int| 0 <= j < a@->Primitive_values.len() implies kind_min(
                a@->Primitive_kind,
            ) <= #[trigger] a@->Primitive_values[j] <= kind_max(a@->Primitive_kind) by {
                assert(a@->Primitive_values[j] == a.values@[j] as int);
            }
        }
        Ok(a)
    }

    /// Builds a primitive array whose inputs are already known to satisfy
    /// the invariants.
    pub fn new(data_type: DataType, values: Vec<i128>, validity: Option<Bitmap>) -> (a:
        PrimitiveArray)
        requires
            prim_kind(data_type@) is Some,
            forall|i: int|
                0 <= i < values@.len() ==> kind_min(kind_of_dt(data_type))
                    <= #[trigger] values@[i] as int <= kind_max(kind_of_dt(data_type)),
            validity_ok(validity_view(validity), values@.len() as int),
        ensures
            a@ == (Av::Primitive {
                dt: data_type@,
                kind: kind_of_dt(data_type),
                values: values@.map_values(|v: i128| v as int),
                validity: validity_view(validity),
            }),
            wf(a@),
    {
        match Self::try_new(data_type, values, validity) {
            Ok(a) => a,
            Err(_) => {
                proof {
                    assert(false);
                }
                unreached()
            },
        }
    }

    pub fn len(&self) -> (n: usize)
        ensures
            n as int == self@->Primitive_values.len(),
    {
        self.values.len()
    }

    pub fn data_type(&self) -> (dt: &DataType)
        ensures
            dt@ == self@->Primitive_dt,
            kind_of_dt(*dt) == self@->Primitive_kind,
    {
        &self.data_type
    }

    pub fn values(&self) -> (v: &Vec<i128>)
        ensures
            v@.map_values(|x: i128| x as int) == self@->Primitive_values,
    {
        &self.values
    }

    pub fn value(&self, i: usize) -> (v: i128)
        requires
            i < self@->Primitive_values.len(),
        ensures
            v as int == self@->Primitive_values[i as int],
    {
        self.values[i]
    }

    pub fn validity(&self) -> (v: &Option<Bitmap>)
        ensures
            validity_view(*v) == self@->Primitive_validity,
    {
        &self.validity
    }

    /// Whether element `i` is valid (a missing bitmap means all valid).
    pub fn is_valid(&self, i: usize) -> (b: bool)
        requires
            i < self@->Primitive_values.len(),
            validity_ok(self@->Primitive_validity, self@->Primitive_values.len() as int),
        ensures
            b == is_valid_at(self@->Primitive_validity, i as int),
    {
        match &self.validity {
            Option::Some(bm) => bm.get(i),
            Option::None => true,
        }
    }

    /// A deep copy with the same view.
    pub fn duplicate(&self) -> (r: PrimitiveArray)
        ensures
            r@ == self@,
    {
        let values = self.values.clone();
        proof {
            assert(values@ =~= self.values@);
            assert(values@.map_values(|v: i128| v as int) =~= self.values@.map_values(
                |v: i128| v as int,
            ));
        }
        PrimitiveArray {
            data_type: self.data_type.duplicate(),
            values,
            validity: duplicate_validity(&self.validity),
        }
    }
}

/// Every value of this type views into the `Primitive` variant.
pub broadcast proof fn lemma_primitive_shape(a: PrimitiveArray)
    ensures
        (#[trigger] a@) is Primitive,
{
}

} // verus!
