//! List arrays: a monotone offsets buffer delimits, for each element, a
//! slice of one shared child array.

use vstd::prelude::*;

use crate::array::binary::{offsets_ok, offsets_view};
use crate::array::Array;
use crate::bitmap::{duplicate_validity, validity_view, Bitmap};
use crate::datatypes::{DataType, Dtv, Field};
use crate::error::DecodeError;
use crate::model::{is_valid_at, len_of, offset_max, offsets_wf, validity_ok, wf, Av};

verus! {

/// An immutable list array over one child array.
pub struct ListArray {
    data_type: DataType,
    offsets: Vec<i64>,
    values: Box<Array>,
    validity: Option<Bitmap>,
}

/// Whether `dt` is a list type whose declared child type is `child`.
pub open spec fn is_list_of(dt: Dtv, child: Dtv) -> bool {
    (dt matches Dtv::List(f) && f.data_type == child) || (dt matches Dtv::LargeList(f)
        && f.data_type == child)
}

impl View for ListArray {
    type V = Av;

    closed spec fn view(&self) -> Av
        decreases self,
    {
        Av::List {
            dt: self.data_type@,
            offsets: offsets_view(self.offsets@),
            child: Box::new((*self.values)@),
            validity: validity_view(self.validity),
        }
    }
}

impl ListArray {
    /// Builds a list array, validating every invariant.
    ///
    /// Fails with `SchemaMismatch` iff `data_type` is not a list kind, the
    /// child's declared type differs from the declared child field, or the
    /// validity length does not match the element count; fails with
    /// `Corruption` iff the offsets are empty, decreasing, negative, out of
    /// the wire range, or do not end at the child's element count.
    pub fn try_new(
        data_type: DataType,
        offsets: Vec<i64>,
        values: Box<Array>,
        validity: Option<Bitmap>,
    ) -> (r: Result<ListArray, DecodeError>)
        requires
            wf((*values)@),
        ensures
            match r {
                Ok(a) => {
                    &&& a@ == (Av::List {
                        dt: data_type@,
                        offsets: offsets_view(offsets@),
                        child: Box::new((*values)@),
                        validity: validity_view(validity),
                    })
                    &&& wf(a@)
                },
                Err(e) => e == DecodeError::SchemaMismatch || e == DecodeError::Corruption,
            },
            !is_list_of(data_type@, crate::model::dtv_of((*values)@)) ==> r == Err::<
                ListArray,
                DecodeError,
            >(DecodeError::SchemaMismatch),
            (is_list_of(data_type@, crate::model::dtv_of((*values)@)) && !(offsets_wf(
                offsets_view(offsets@),
                offset_max(data_type@),
            ) && offsets_view(offsets@).last() == len_of((*values)@))) ==> r == Err::<
                ListArray,
                DecodeError,
            >(DecodeError::Corruption),
            (is_list_of(data_type@, crate::model::dtv_of((*values)@)) && offsets_wf(
                offsets_view(offsets@),
                offset_max(data_type@),
            ) && offsets_view(offsets@).last() == len_of((*values)@) && !validity_ok(
                validity_view(validity),
                offsets_view(offsets@).len() - 1,
            )) ==> r == Err::<ListArray, DecodeError>(DecodeError::SchemaMismatch),
            r is Ok <==> (is_list_of(data_type@, crate::model::dtv_of((*values)@)) && offsets_wf(
                offsets_view(offsets@),
                offset_max(data_type@),
            ) && offsets_view(offsets@).last() == len_of((*values)@) && validity_ok(
                validity_view(validity),
                offsets_view(offsets@).len() - 1,
            )),
    {
        let large = match &data_type {
            DataType::List(_) => false,
            DataType::LargeList(_) => true,
            _ => {
                return Err(DecodeError::SchemaMismatch);
            },
        };
        let declared_ok = match &data_type {
            DataType::List(f) => f.data_type.same_as(values.data_type()),
            DataType::LargeList(f) => f.data_type.same_as(values.data_type()),
            _ => false,
        };
        if !declared_ok {
            return Err(DecodeError::SchemaMismatch);
        }
        let maxv: i64 = if large {
            9223372036854775807
        } else {
            2147483647
        };
        if !offsets_ok(&offsets, maxv) {
            return Err(DecodeError::Corruption);
        }
        let last: i64 = offsets[offsets.len() - 1];
        proof {
            crate::array::binary::lemma_offsets_sorted(
                offsets_view(offsets@),
                0,
                offsets_view(offsets@).len() - 1,
            );
        }
        let child_len: usize = values.len();
        if (last as u64) != (child_len as u64) {
            return Err(DecodeError::Corruption);
        }
        match &validity {
            Option::Some(b) => {
                if b.len() != offsets.len() - 1 {
                    return Err(DecodeError::SchemaMismatch);
                }
            },
            Option::None => {},
        }
        Ok(ListArray { data_type, offsets, values, validity })
    }

    /// The declared child field of a list type.
    pub fn get_child_field(data_type: &DataType) -> (f: &Field)
        requires
            data_type@ is List || data_type@ is LargeList,
        ensures
            (data_type@ matches Dtv::List(g) ==> f@ == *g),
            (data_type@ matches Dtv::LargeList(g) ==> f@ == *g),
    {
        match data_type {
            DataType::List(f) => f,
            DataType::LargeList(f) => f,
            _ => {
                proof {
                    assert(false);
                }
                unreached()
            },
        }
    }

    /// The declared child type of a list type.
    pub fn get_child_type(data_type: &DataType) -> (t: &DataType)
        requires
            data_type@ is List || data_type@ is LargeList,
        ensures
            (data_type@ matches Dtv::List(g) ==> t@ == g.data_type),
            (data_type@ matches Dtv::LargeList(g) ==> t@ == g.data_type),
    {
        &Self::get_child_field(data_type).data_type
    }

    pub fn len(&self) -> (n: usize)
        requires
            self@->List_offsets.len() >= 1,
        ensures
            n as int == self@->List_offsets.len() - 1,
    {
        self.offsets.len() - 1
    }

    pub fn data_type(&self) -> (dt: &DataType)
        ensures
            dt@ == self@->List_dt,
    {
        &self.data_type
    }

    pub fn offsets(&self) -> (o: &Vec<i64>)
        ensures
            offsets_view(o@) == self@->List_offsets,
    {
        &self.offsets
    }

    /// The shared child array.
    pub fn values(&self) -> (v: &Array)
        ensures
            v@ == *self@->List_child,
    {
        &self.values
    }

    pub fn validity(&self) -> (v: &Option<Bitmap>)
        ensures
            validity_view(*v) == self@->List_validity,
    {
        &self.validity
    }

    /// Whether element `i` is valid.
    pub fn is_valid(&self, i: usize) -> (b: bool)
        requires
            (i as int) < self@->List_offsets.len() - 1,
            validity_ok(self@->List_validity, self@->List_offsets.len() - 1),
        ensures
            b == is_valid_at(self@->List_validity, i as int),
    {
        match &self.validity {
            Option::Some(bm) => bm.get(i),
            Option::None => true,
        }
    }

    /// A deep copy with the same view.
    pub fn duplicate(&self) -> (r: ListArray)
        ensures
            r@ == self@,
        decreases *self,
    {
        let offsets = self.offsets.clone();
        proof {
            assert(offsets@ =~= self.offsets@);
            assert(offsets_view(offsets@) =~= offsets_view(self.offsets@));
        }
        ListArray {
            data_type: self.data_type.duplicate(),
            offsets,
            values: Box::new(self.values.duplicate()),
            validity: duplicate_validity(&self.validity),
        }
    }
}

/// Every value of this type views into the `List` variant.
pub broadcast proof fn lemma_list_shape(a: ListArray)
    ensures
        (#[trigger] a@) is List,
{
}

} // verus!
