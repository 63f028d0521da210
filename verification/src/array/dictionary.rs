//! Dictionary-encoded arrays: integer keys index into a shared values
//! array. Validity lives on the keys. A valid key must index inside the
//! values array; an out-of-range valid key is rejected at construction
//! (treating it as corruption rather than as null is this crate's
//! documented choice for that unspecified case).

use vstd::prelude::*;

use crate::array::primitive::PrimitiveArray;
use crate::array::Array;
use crate::datatypes::{DataType, Dtv, IntKind};
use crate::error::DecodeError;
use crate::model::{is_valid_at, len_of, validity_ok, wf, Av};

verus! {

/// An immutable dictionary-encoded array.
pub struct DictionaryArray {
    data_type: DataType,
    keys: PrimitiveArray,
    values: Box<Array>,
}

/// Whether `dt` declares a dictionary whose key kind is `k` and whose
/// values type is `v`.
pub open spec fn is_dictionary_of(dt: Dtv, k: IntKind, v: Dtv) -> bool {
    dt == Dtv::Dictionary(k, Box::new(v))
}

/// Some key with its validity bit set indexes outside the values array.
pub open spec fn has_out_of_range_key(
    keys: Seq<int>,
    key_validity: Option<Seq<bool>>,
    values_len: int,
) -> bool {
    exists|i: int|
        0 <= i < keys.len() && is_valid_at(key_validity, i) && !(0 <= #[trigger] keys[i]
            < values_len)
}

impl View for DictionaryArray {
    type V = Av;

    closed spec fn view(&self) -> Av
        decreases self,
    {
        Av::Dictionary {
            dt: self.data_type@,
            key_kind: self.keys@->Primitive_kind,
            keys: self.keys@->Primitive_values,
            key_validity: self.keys@->Primitive_validity,
            values: Box::new((*self.values)@),
        }
    }
}

impl DictionaryArray {
    /// Builds a dictionary array, validating every invariant.
    ///
    /// Fails with `SchemaMismatch` iff `data_type` is not a dictionary
    /// kind, or its key kind or values type disagree with the given keys
    /// and values; fails with `Corruption` iff some key whose validity bit
    /// is set indexes outside the values array.
    #[verifier::loop_isolation(false)]
    pub fn try_new(data_type: DataType, keys: PrimitiveArray, values: Box<Array>) -> (r: Result<
        DictionaryArray,
        DecodeError,
    >)
        requires
            wf(keys@),
            wf((*values)@),
        ensures
            match r {
                Ok(a) => {
                    &&& a@ == (Av::Dictionary {
                        dt: data_type@,
                        key_kind: keys@->Primitive_kind,
                        keys: keys@->Primitive_values,
                        key_validity: keys@->Primitive_validity,
                        values: Box::new((*values)@),
                    })
                    &&& wf(a@)
                },
                Err(e) => e == DecodeError::SchemaMismatch || e == DecodeError::Corruption,
            },
            !is_dictionary_of(
                data_type@,
                keys@->Primitive_kind,
                crate::model::dtv_of((*values)@),
            ) ==> r == Err::<DictionaryArray, DecodeError>(DecodeError::SchemaMismatch),
            (is_dictionary_of(data_type@, keys@->Primitive_kind, crate::model::dtv_of((*values)@))
                && has_out_of_range_key(
                keys@->Primitive_values,
                keys@->Primitive_validity,
                len_of((*values)@),
            )) ==> r == Err::<DictionaryArray, DecodeError>(DecodeError::Corruption),
            r is Ok <==> (is_dictionary_of(
                data_type@,
                keys@->Primitive_kind,
                crate::model::dtv_of((*values)@),
            ) && !has_out_of_range_key(
                keys@->Primitive_values,
                keys@->Primitive_validity,
                len_of((*values)@),
            )),
    {
        broadcast use crate::array::primitive::lemma_primitive_shape;

        let type_ok = match &data_type {
            DataType::Dictionary(k, v) => {
                let keys_dt = keys.data_type();
                let kind_ok = match keys_dt.primitive_kind() {
                    Option::Some(kk) => kk == *k,
                    Option::None => false,
                };
                kind_ok && v.same_as(values.data_type())
            },
            _ => false,
        };
        if !type_ok {
            return Err(DecodeError::SchemaMismatch);
        }
        let values_len: usize = values.len();
        let n: usize = keys.len();
        let mut i: usize = 0;
        while i < n
            invariant
                n as int == keys@->Primitive_values.len(),
                wf(keys@),
                wf((*values)@),
                values_len as int == len_of((*values)@),
                0 <= i <= n,
                forall|j: int|
                    0 <= j < i && is_valid_at(keys@->Primitive_validity, j) ==> 0
                        <= #[trigger] keys@->Primitive_values[j] < values_len as int,
            decreases n - i,
        {
            if keys.is_valid(i) {
                let kv: i128 = keys.value(i);
                if kv < 0 || kv >= values_len as i128 {
                    proof {
                        assert(is_valid_at(keys@->Primitive_validity, i as int) && !(0
                            <= keys@->Primitive_values[i as int] < len_of((*values)@)));
                    }
                    return Err(DecodeError::Corruption);
                }
            }
            i = i + 1;
        }
        Ok(DictionaryArray { data_type, keys, values })
    }

    pub fn len(&self) -> (n: usize)
        ensures
            n as int == self@->Dictionary_keys.len(),
    {
        self.keys.len()
    }

    pub fn data_type(&self) -> (dt: &DataType)
        ensures
            dt@ == self@->Dictionary_dt,
    {
        &self.data_type
    }

    /// The key array.
    pub fn keys(&self) -> (k: &PrimitiveArray)
        ensures
            k@->Primitive_kind == self@->Dictionary_key_kind,
            k@->Primitive_values == self@->Dictionary_keys,
            k@->Primitive_validity == self@->Dictionary_key_validity,
    {
        &self.keys
    }

    /// The shared values array.
    pub fn values(&self) -> (v: &Array)
        ensures
            v@ == *self@->Dictionary_values,
    {
        &self.values
    }

    /// A deep copy with the same view.
    pub fn duplicate(&self) -> (r: DictionaryArray)
        ensures
            r@ == self@,
        decreases *self,
    {
        DictionaryArray {
            data_type: self.data_type.duplicate(),
            keys: self.keys.duplicate(),
            values: Box::new(self.values.duplicate()),
        }
    }
}

/// Every value of this type views into the `Dictionary` variant.
pub broadcast proof fn lemma_dictionary_shape(a: DictionaryArray)
    ensures
        (#[trigger] a@) is Dictionary,
{
}

} // verus!
