//! An immutable bit-vector. On the wire validity and boolean data are
//! bit-packed, least-significant bit first; in memory the bits are held
//! unpacked so that contracts can speak of a plain `Seq<bool>`.

use vstd::prelude::*;

verus! {

/// Which bit of a packed little-endian bitmap byte sequence position `i`
/// selects.
pub open spec fn packed_bit(bytes: Seq<u8>, i: int) -> bool {
    (bytes[i / 8] >> ((i % 8) as u8)) & 1u8 == 1u8
}

/// A fixed-length vector of bits. `None` in an array's validity slot means
/// "all valid" and is distinct from a bitmap with every bit set.
pub struct Bitmap {
    bits: Vec<bool>,
}

impl View for Bitmap {
    type V = Seq<bool>;

    closed spec fn view(&self) -> Seq<bool> {
        self.bits@
    }
}

impl Bitmap {
    /// Wraps an explicit bit vector.
    pub fn new(bits: Vec<bool>) -> (r: Bitmap)
        ensures
            r@ == bits@,
    {
        Bitmap { bits }
    }

    /// A bitmap of `length` cleared bits.
    pub fn new_zeroed(length: usize) -> (r: Bitmap)
        ensures
            r@.len() == length,
            forall|i: int| 0 <= i < length ==> r@[i] == false,
    {
        let mut bits: Vec<bool> = Vec::new();
        let mut i: usize = 0;
        while i < length
            invariant
                0 <= i <= length,
                bits@.len() == i,
                forall|j: int| 0 <= j < i ==> bits@[j] == false,
            decreases length - i,
        {
            bits.push(false);
            i = i + 1;
        }
        Bitmap { bits }
    }

    /// Unpacks `length` bits from a packed byte region, least-significant
    /// bit of each byte first.
    pub fn from_packed(bytes: &Vec<u8>, length: usize) -> (r: Bitmap)
        requires
            length <= bytes@.len() * 8,
        ensures
            r@.len() == length,
            forall|i: int| 0 <= i < length ==> r@[i] == packed_bit(bytes@, i),
    {
        let mut bits: Vec<bool> = Vec::new();
        let mut i: usize = 0;
        while i < length
            invariant
                0 <= i <= length,
                length <= bytes@.len() * 8,
                bits@.len() == i,
                forall|j: int| 0 <= j < i ==> bits@[j] == packed_bit(bytes@, j),
            decreases length - i,
        {
            let byte: u8 = bytes[i / 8];
            let bit: bool = (byte >> ((i % 8) as u8)) & 1u8 == 1u8;
            bits.push(bit);
            i = i + 1;
        }
        Bitmap { bits }
    }

    pub fn len(&self) -> (n: usize)
        ensures
            n == self@.len(),
    {
        self.bits.len()
    }

    /// The bit at position `i`.
    pub fn get(&self, i: usize) -> (b: bool)
        requires
            i < self@.len(),
        ensures
            b == self@[i as int],
    {
        self.bits[i]
    }

    /// A copy with the same bits.
    pub fn duplicate(&self) -> (r: Bitmap)
        ensures
            r@ == self@,
    {
        let bits = self.bits.clone();
        proof {
            assert(bits@ =~= self.bits@);
        }
        Bitmap { bits }
    }
}

/// Duplicates an optional validity bitmap.
pub fn duplicate_validity(v: &Option<Bitmap>) -> (r: Option<Bitmap>)
    ensures
        validity_view(r) == validity_view(*v),
        r is Some <==> *v is Some,
{
    match v {
        Option::None => Option::None,
        Option::Some(b) => Option::Some(b.duplicate()),
    }
}

/// The ghost value of an optional validity bitmap.
pub open spec fn validity_view(v: Option<Bitmap>) -> Option<Seq<bool>> {
    match v {
        Option::None => Option::None,
        Option::Some(b) => Option::Some(b@),
    }
}

} // verus!
