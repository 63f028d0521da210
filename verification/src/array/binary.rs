//! Variable-length byte and text arrays: a monotone offsets buffer delimits
//! each element's slice of one shared data buffer. `Utf8`/`LargeUtf8` and
//! `Binary`/`LargeBinary` share this physical layout; they differ only in
//! the declared type and the wire width of the offsets.

use vstd::prelude::*;

use crate::bitmap::{duplicate_validity, validity_view, Bitmap};
use crate::datatypes::{DataType, Dtv};
use crate::error::DecodeError;
use crate::model::{is_valid_at, offset_max, offsets_wf, validity_ok, wf, Av};

verus! {

/// An immutable variable-length binary (or text) array.
pub struct BinaryArray {
    data_type: DataType,
    offsets: Vec<i64>,
    data: Vec<u8>,
    validity: Option<Bitmap>,
}

/// The ghost value of an offsets vector.
pub open spec fn offsets_view(offsets: Seq<i64>) -> Seq<int> {
    offsets.map_values(|v: i64| v as int)
}

/// Whether a declared type is one of the variable-length binary kinds.
pub open spec fn is_varbin(dt: Dtv) -> bool {
    dt == Dtv::Utf8 || dt == Dtv::LargeUtf8 || dt == Dtv::Binary || dt == Dtv::LargeBinary
}

/// In a monotone offsets sequence every entry is bounded by the ends.
pub proof fn lemma_offsets_sorted(offsets: Seq<int>, i: int, j: int)
    requires
        offsets.len() >= 1,
        forall|k: int| 0 <= k < offsets.len() - 1 ==> #[trigger] offsets[k] <= offsets[k + 1],
        0 <= i <= j < offsets.len(),
    ensures
        offsets[i] <= offsets[j],
    decreases j - i,
{
    if i < j {
        lemma_offsets_sorted(offsets, i, j - 1);
        assert(offsets[j - 1] <= offsets[j]);
    }
}

/// Checks an offsets vector against the wire invariants: non-empty,
/// first entry at or above zero, non-decreasing, and every entry within
/// `[0, maxv]`.
pub fn offsets_ok(offsets: &Vec<i64>, maxv: i64) -> (r: bool)
    ensures
        r == offsets_wf(offsets_view(offsets@), maxv as int),
{
    let ghost ov = offsets_view(offsets@);
    let n: usize = offsets.len();
    if n == 0 {
        proof {
            assert(ov.len() == 0);
        }
        return false;
    }
    if offsets[0] < 0 {
        proof {
            assert(ov[0] == offsets@[0] as int);
        }
        return false;
    }
    let mut i: usize = 0;
    while i < n
        invariant
            n == offsets@.len(),
            1 <= n,
            0 <= i <= n,
            ov == offsets_view(offsets@),
            ov[0] >= 0,
            forall|j: int| 0 <= j < i && j < n - 1 ==> #[trigger] ov[j] <= ov[j + 1],
            forall|j: int| 0 <= j < i ==> #[trigger] ov[j] <= maxv as int,
        decreases n - i,
    {
        if offsets[i] > maxv {
            proof {
                assert(ov[i as int] == offsets@[i as int] as int);
            }
            return false;
        }
        if i + 1 < n {
            if offsets[i] > offsets[i + 1] {
                proof {
                    assert(ov[i as int] == offsets@[i as int] as int);
                    assert(ov[i as int + 1] == offsets@[i as int + 1] as int);
                }
                return false;
            }
        }
        i = i + 1;
    }
    true
}

impl View for BinaryArray {
    type V = Av;

    closed spec fn view(&self) -> Av {
        Av::VarBin {
            dt: self.data_type@,
            offsets: offsets_view(self.offsets@),
            data: self.data@,
            validity: validity_view(self.validity),
        }
    }
}

impl BinaryArray {
    /// Builds a variable-length array, validating every invariant.
    ///
    /// Fails with `SchemaMismatch` iff `data_type` is not one of the four
    /// variable-length kinds or the validity length does not match the
    /// element count; fails with `Corruption` iff the offsets are empty,
    /// decreasing, negative, out of the wire range, or do not end at the
    /// data buffer's byte length.
    pub fn try_new(
        data_type: DataType,
        offsets: Vec<i64>,
        data: Vec<u8>,
        validity: Option<Bitmap>,
    ) -> (r: Result<BinaryArray, DecodeError>)
        ensures
            match r {
                Ok(a) => {
                    &&& a@ == (Av::VarBin {
                        dt: data_type@,
                        offsets: offsets_view(offsets@),
                        data: data@,
                        validity: validity_view(validity),
                    })
                    &&& wf(a@)
                },
                Err(e) => {
                    &&& (e == DecodeError::SchemaMismatch || e == DecodeError::Corruption)
                    &&& (e == DecodeError::SchemaMismatch ==> !is_varbin(data_type@)
                        || !validity_ok(
                        validity_view(validity),
                        offsets_view(offsets@).len() - 1,
                    ))
                    &&& (e == DecodeError::Corruption ==> !(offsets_wf(
                        offsets_view(offsets@),
                        offset_max(data_type@),
                    ) && offsets_view(offsets@).last() == data@.len()))
                },
            },
    {
        let large = match &data_type {
            DataType::Utf8 => false,
            DataType::Binary => false,
            DataType::LargeUtf8 => true,
            DataType::LargeBinary => true,
            _ => {
                return Err(DecodeError::SchemaMismatch);
            },
        };
        let maxv: i64 = if large {
            9223372036854775807
        } else {
            2147483647
        };
        if !offsets_ok(&offsets, maxv) {
            return Err(DecodeError::Corruption);
        }
        let last: i64 = offsets[offsets.len() - 1];
        proof {
            lemma_offsets_sorted(
                offsets_view(offsets@),
                0,
                offsets_view(offsets@).len() - 1,
            );
        }
        if (last as u64) != (data.len() as u64) {
            return Err(DecodeError::Corruption);
        }
        match &validity {
            Option::Some(b) => {
                if b.len() != offsets.len() - 1 {
                    return Err(DecodeError::SchemaMismatch);
                }
            },
            Option::None => {},
        }
        Ok(BinaryArray { data_type, offsets, data, validity })
    }

    pub fn len(&self) -> (n: usize)
        requires
            self@->VarBin_offsets.len() >= 1,
        ensures
            n as int == self@->VarBin_offsets.len() - 1,
    {
        self.offsets.len() - 1
    }

    pub fn data_type(&self) -> (dt: &DataType)
        ensures
            dt@ == self@->VarBin_dt,
    {
        &self.data_type
    }

    pub fn offsets(&self) -> (o: &Vec<i64>)
        ensures
            offsets_view(o@) == self@->VarBin_offsets,
    {
        &self.offsets
    }

    pub fn data(&self) -> (d: &Vec<u8>)
        ensures
            d@ == self@->VarBin_data,
    {
        &self.data
    }

    pub fn validity(&self) -> (v: &Option<Bitmap>)
        ensures
            validity_view(*v) == self@->VarBin_validity,
    {
        &self.validity
    }

    /// Whether element `i` is valid.
    pub fn is_valid(&self, i: usize) -> (b: bool)
        requires
            (i as int) < self@->VarBin_offsets.len() - 1,
            validity_ok(self@->VarBin_validity, self@->VarBin_offsets.len() - 1),
        ensures
            b == is_valid_at(self@->VarBin_validity, i as int),
    {
        match &self.validity {
            Option::Some(bm) => bm.get(i),
            Option::None => true,
        }
    }

    /// The byte slice of element `i`, copied out.
    pub fn value(&self, i: usize) -> (r: Vec<u8>)
        requires
            wf(self@),
            (i as int) < self@->VarBin_offsets.len() - 1,
        ensures
            r@ == self@->VarBin_data.subrange(
                self@->VarBin_offsets[i as int],
                self@->VarBin_offsets[i as int + 1],
            ),
    {
        let ghost ov = offsets_view(self.offsets@);
        let n_off: usize = self.offsets.len();
        let dlen: usize = self.data.len();
        proof {
            assert(ov.len() == self.offsets@.len());
            assert(ov.last() == dlen as int);
            lemma_offsets_sorted(ov, 0, i as int);
            lemma_offsets_sorted(ov, i as int, i as int + 1);
            lemma_offsets_sorted(ov, i as int + 1, ov.len() - 1);
            assert(ov[i as int] == self.offsets@[i as int] as int);
            assert(ov[i as int + 1] == self.offsets@[i as int + 1] as int);
            assert(0 <= ov[i as int]);
            assert(ov[i as int + 1] <= self.data@.len());
        }
        let start: usize = self.offsets[i] as usize;
        let end: usize = self.offsets[i + 1] as usize;
        let mut out: Vec<u8> = Vec::new();
        let mut j: usize = start;
        while j < end
            invariant
                start <= j <= end,
                end <= self.data@.len(),
                out@.len() == j - start,
                forall|k: int| 0 <= k < out@.len() ==> out@[k] == self.data@[start + k],
            decreases end - j,
        {
            out.push(self.data[j]);
            j = j + 1;
        }
        proof {
            assert(out@ =~= self@->VarBin_data.subrange(ov[i as int], ov[i as int + 1]));
        }
        out
    }

    /// A deep copy with the same view.
    pub fn duplicate(&self) -> (r: BinaryArray)
        ensures
            r@ == self@,
    {
        let offsets = self.offsets.clone();
        let data = self.data.clone();
        proof {
            assert(offsets@ =~= self.offsets@);
            assert(data@ =~= self.data@);
            assert(offsets_view(offsets@) =~= offsets_view(self.offsets@));
        }
        BinaryArray {
            data_type: self.data_type.duplicate(),
            offsets,
            data,
            validity: duplicate_validity(&self.validity),
        }
    }
}

/// Every value of this type views into the `VarBin` variant.
pub broadcast proof fn lemma_binary_shape(a: BinaryArray)
    ensures
        (#[trigger] a@) is VarBin,
{
}

} // verus!
