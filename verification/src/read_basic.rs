//! The buffer decoder: one buffer descriptor plus the message body becomes
//! a typed region. Absolute position is `block_offset + descriptor.offset`;
//! with stream-level compression each buffer carries an 8-byte signed
//! little-endian decompressed-length prefix, where `-1` marks this one
//! buffer as stored raw. Multi-byte values are read little- or big-endian
//! as the message declares.

use vstd::prelude::*;

use crate::bitmap::{packed_bit, Bitmap};
use crate::datatypes::{kind_max, kind_min, kind_signed, kind_width, IntKind};
use crate::error::DecodeError;
use crate::ipc::{BufferDesc, BufferQueue, Compression, FieldNode};

verus! {

/// 256 to the `n`.
pub open spec fn pow256(n: int) -> int
    decreases n,
{
    if n <= 0 {
        1
    } else {
        256 * pow256(n - 1)
    }
}

/// The unsigned little-endian value of a byte sequence.
pub open spec fn le_uint(bytes: Seq<u8>) -> int
    decreases bytes,
{
    if bytes.len() == 0 {
        0
    } else {
        bytes[0] + 256 * le_uint(bytes.drop_first())
    }
}

/// `le_uint` is bounded by the byte count.
pub proof fn lemma_le_uint_bound(bytes: Seq<u8>)
    ensures
        0 <= le_uint(bytes) < pow256(bytes.len() as int),
    decreases bytes,
{
    if bytes.len() > 0 {
        lemma_le_uint_bound(bytes.drop_first());
    }
}

/// The two's-complement value of a byte sequence, little-endian.
pub open spec fn int_from_le(bytes: Seq<u8>, signed: bool) -> int {
    let u = le_uint(bytes);
    if signed && 2 * u >= pow256(bytes.len() as int) {
        u - pow256(bytes.len() as int)
    } else {
        u
    }
}

/// The bytes of element `e` of width `w`, in little-endian order, as the
/// wire stores them under the given endianness flag.
pub open spec fn elem_bytes(bytes: Seq<u8>, e: int, w: int, little: bool) -> Seq<u8> {
    Seq::new(
        w as nat,
        |p: int|
            if little {
                bytes[e * w + p]
            } else {
                bytes[e * w + (w - 1 - p)]
            },
    )
}

/// The logical value of element `e` of a typed buffer.
pub open spec fn wire_value(bytes: Seq<u8>, kind: IntKind, little: bool, e: int) -> int {
    int_from_le(elem_bytes(bytes, e, kind_width(kind) as int, little), kind_signed(kind))
}

/// Reads one element out of a typed buffer.
#[verifier::loop_isolation(false)]
fn decode_element(bytes: &Vec<u8>, e: usize, kind: IntKind, little: bool) -> (v: i128)
    requires
        (e + 1) * kind_width(kind) <= bytes@.len(),
    ensures
        v as int == wire_value(bytes@, kind, little, e as int),
        kind_min(kind) <= v as int <= kind_max(kind),
{
    let w: usize = kind.width();
    let blen: usize = bytes.len();
    proof {
        assert(e * w + w == (e + 1) * w) by (nonlinear_arith);
    }
    let base: usize = e * w;
    let ghost lseq = elem_bytes(bytes@, e as int, w as int, little);
    let mut acc: u64 = 0;
    let mut j: usize = w;
    proof {
        assert(lseq.skip(w as int) =~= Seq::<u8>::empty());
        lemma_le_uint_bound(lseq.skip(j as int));
        reveal_with_fuel(pow256, 9);
    }
    while j > 0
        invariant
            0 <= j <= w,
            w == kind_width(kind),
            (e + 1) * w <= bytes@.len(),
            base == e * w,
            lseq == elem_bytes(bytes@, e as int, w as int, little),
            acc as int == le_uint(lseq.skip(j as int)),
            (acc as int) < pow256(w - j),
        decreases j,
    {
        j = j - 1;
        let b: u8 = if little {
            bytes[base + j]
        } else {
            bytes[base + (w - 1 - j)]
        };
        proof {
            reveal_with_fuel(pow256, 9);
            assert(lseq[j as int] == b);
            assert(lseq.skip(j as int).drop_first() =~= lseq.skip(j as int + 1));
            assert(le_uint(lseq.skip(j as int)) == b + 256 * le_uint(lseq.skip(j as int + 1)));
        }
        acc = b as u64 + 256 * acc;
    }
    proof {
        assert(lseq.skip(0) =~= lseq);
        assert(lseq.len() == w);
        reveal_with_fuel(pow256, 9);
    }
    let signed = kind.signed();
    let full: i128 = match kind {
        IntKind::Int8 => 256,
        IntKind::Int16 => 65536,
        IntKind::Int32 => 4294967296,
        IntKind::Int64 => 18446744073709551616,
        IntKind::UInt8 => 256,
        IntKind::UInt16 => 65536,
        IntKind::UInt32 => 4294967296,
        IntKind::UInt64 => 18446744073709551616,
    };
    proof {
        reveal_with_fuel(pow256, 9);
        assert(full as int == pow256(w as int));
    }
    if signed && 2 * (acc as i128) >= full {
        (acc as i128) - full
    } else {
        acc as i128
    }
}

/// Reads a whole typed buffer of `count` elements.
#[verifier::loop_isolation(false)]
pub fn decode_values(bytes: &Vec<u8>, count: usize, kind: IntKind, little: bool) -> (r: Vec<i128>)
    requires
        bytes@.len() == count * kind_width(kind),
    ensures
        r@.len() == count,
        forall|e: int|
            0 <= e < count ==> #[trigger] r@[e] as int == wire_value(bytes@, kind, little, e),
        forall|e: int|
            0 <= e < count ==> kind_min(kind) <= #[trigger] r@[e] as int <= kind_max(kind),
{
    let mut out: Vec<i128> = Vec::new();
    let mut e: usize = 0;
    while e < count
        invariant
            0 <= e <= count,
            out@.len() == e,
            forall|k: int|
                0 <= k < e ==> #[trigger] out@[k] as int == wire_value(bytes@, kind, little, k),
            forall|k: int| 0 <= k < e ==> kind_min(kind) <= #[trigger] out@[k] as int <= kind_max(kind),
        decreases count - e,
    {
        proof {
            assert((e + 1) * kind_width(kind) <= count * kind_width(kind)) by (nonlinear_arith)
                requires
                    e < count,
            ;
        }
        let v = decode_element(bytes, e, kind, little);
        out.push(v);
        e = e + 1;
    }
    out
}

/// The bytes a descriptor denotes inside the message body, before any
/// compression framing; `None` when the descriptor reaches outside the
/// body or is negative.
pub open spec fn region_of(body: Seq<u8>, block_offset: int, desc: BufferDesc) -> Option<Seq<u8>> {
    if 0 <= desc.offset && 0 <= desc.length && block_offset + desc.offset + desc.length
        <= body.len() {
        Some(body.subrange(block_offset + desc.offset, block_offset + desc.offset + desc.length))
    } else {
        None
    }
}

/// What `lz4_decompress` returns: LZ4 block decompression is a function of
/// the input bytes and the room offered, and of nothing else.
pub uninterp spec fn lz4_inflate(input: Seq<u8>, room: nat) -> Option<Seq<u8>>;

/// Relies on `lz4_flex::block::decompress_into`: decompressing into a
/// fixed-size output is deterministic in the input bytes and the output
/// room; at most `room` bytes are written, and the written prefix is
/// returned. Any codec failure (including output too small) maps to
/// `Compression`.
#[verifier::external_body]
fn lz4_decompress(input: &Vec<u8>, room: usize) -> (r: Result<Vec<u8>, DecodeError>)
    ensures
        match r {
            Ok(v) => lz4_inflate(input@, room as nat) == Some(v@) && v@.len() <= room,
            Err(e) => lz4_inflate(input@, room as nat) is None && e == DecodeError::Compression,
        },
{
    let mut out = vec![0u8; room];
    match lz4_flex::block::decompress_into(input.as_slice(), &mut out) {
        Ok(n) => {
            out.truncate(n);
            Ok(out)
        },
        Err(_) => Err(DecodeError::Compression),
    }
}

/// The exact bytes one descriptor yields under the message's compression
/// setting, when `needed` bytes are required: uncompressed buffers may be
/// padded and are truncated to `needed`; compressed buffers carry the
/// 8-byte prefix, with `-1` marking a raw buffer; a decompressed result
/// must measure exactly `needed` bytes.
pub open spec fn buffer_bytes(
    body: Seq<u8>,
    block_offset: int,
    compression: Option<Compression>,
    desc: BufferDesc,
    needed: int,
) -> Result<Seq<u8>, DecodeError> {
    if !(0 <= needed <= usize::MAX) {
        Err(DecodeError::Corruption)
    } else {
        buffer_bytes_sized(body, block_offset, compression, desc, needed)
    }
}

/// `buffer_bytes` once the requested size is known to be addressable.
pub open spec fn buffer_bytes_sized(
    body: Seq<u8>,
    block_offset: int,
    compression: Option<Compression>,
    desc: BufferDesc,
    needed: int,
) -> Result<Seq<u8>, DecodeError> {
    match region_of(body, block_offset, desc) {
        Option::None => Err(DecodeError::Corruption),
        Option::Some(reg) => match compression {
            Option::None => if needed <= reg.len() {
                Ok(reg.take(needed))
            } else {
                Err(DecodeError::Corruption)
            },
            Option::Some(_) => if reg.len() < 8 {
                Err(DecodeError::Corruption)
            } else {
                let prefix = int_from_le(reg.take(8), true);
                let payload = reg.skip(8);
                if prefix == -1 {
                    if needed <= payload.len() {
                        Ok(payload.take(needed))
                    } else {
                        Err(DecodeError::Corruption)
                    }
                } else {
                    match lz4_inflate(payload, needed as nat) {
                        Option::Some(out) => if out.len() == needed {
                            Ok(out)
                        } else {
                            Err(DecodeError::Compression)
                        },
                        Option::None => Err(DecodeError::Compression),
                    }
                }
            },
        },
    }
}

/// Law: under stream-level compression, a buffer whose 8-byte prefix holds
/// the sentinel `-1` is consumed as raw bytes — the codec plays no part in
/// its outcome. Every reader applies `buffer_bytes`, so this holds of every
/// buffer slot of every decode.
pub proof fn lemma_sentinel_buffer_is_raw(
    body: Seq<u8>,
    block_offset: int,
    desc: BufferDesc,
    needed: int,
)
    requires
        region_of(body, block_offset, desc) is Some,
        region_of(body, block_offset, desc)->Some_0.len() >= 8,
        int_from_le(region_of(body, block_offset, desc)->Some_0.take(8), true) == -1,
        0 <= needed <= usize::MAX,
    ensures
        ({
            let payload = region_of(body, block_offset, desc)->Some_0.skip(8);
            buffer_bytes(body, block_offset, Some(Compression::Lz4), desc, needed) == (if needed
                <= payload.len() {
                Ok::<Seq<u8>, DecodeError>(payload.take(needed))
            } else {
                Err::<Seq<u8>, DecodeError>(DecodeError::Corruption)
            })
        }),
{
}

/// An exec result of raw bytes matches a ghost one.
pub open spec fn bytes_result_matches(
    r: Result<Vec<u8>, DecodeError>,
    s: Result<Seq<u8>, DecodeError>,
) -> bool {
    match r {
        Ok(v) => s == Ok::<Seq<u8>, DecodeError>(v@),
        Err(e) => s == Err::<Seq<u8>, DecodeError>(e),
    }
}

/// Copies `len` bytes of the body starting at `start`.
fn copy_range(body: &Vec<u8>, start: usize, len: usize) -> (r: Vec<u8>)
    requires
        start + len <= body@.len(),
    ensures
        r@ == body@.subrange(start as int, start as int + len),
{
    let blen: usize = body.len();
    let mut out: Vec<u8> = Vec::new();
    let mut j: usize = 0;
    while j < len
        invariant
            blen == body@.len(),
            start + len <= body@.len(),
            0 <= j <= len,
            out@.len() == j,
            forall|k: int| 0 <= k < j ==> out@[k] == body@[start + k],
        decreases len - j,
    {
        out.push(body[start + j]);
        j = j + 1;
    }
    proof {
        assert(out@ =~= body@.subrange(start as int, start as int + len));
    }
    out
}

/// Consumes one buffer descriptor and yields exactly the `needed` bytes it
/// denotes, decompressing when the stream declares a codec (see
/// `buffer_bytes` for the precise meaning).
pub fn read_buffer_bytes(
    buffers: &mut BufferQueue,
    body: &Vec<u8>,
    block_offset: u64,
    compression: Option<Compression>,
    needed: usize,
) -> (r: Result<Vec<u8>, DecodeError>)
    ensures
        old(buffers)@.len() == 0 ==> r == Err::<Vec<u8>, DecodeError>(DecodeError::Corruption)
            && final(buffers)@ == old(buffers)@,
        old(buffers)@.len() > 0 ==> final(buffers)@ == old(buffers)@.drop_first()
            && bytes_result_matches(
            r,
            buffer_bytes(
                body@,
                block_offset as int,
                compression,
                old(buffers)@[0],
                needed as int,
            ),
        ),
{
    let desc = match buffers.pop_buffer() {
        Ok(d) => d,
        Err(e) => {
            return Err(e);
        },
    };
    read_desc_bytes(desc, body, block_offset, compression, needed)
}

/// Decodes the bytes one already-popped descriptor denotes.
#[verifier::loop_isolation(false)]
pub fn read_desc_bytes(
    desc: BufferDesc,
    body: &Vec<u8>,
    block_offset: u64,
    compression: Option<Compression>,
    needed: usize,
) -> (r: Result<Vec<u8>, DecodeError>)
    ensures
        bytes_result_matches(
            r,
            buffer_bytes(body@, block_offset as int, compression, desc, needed as int),
        ),
{
    let ghost gregion = region_of(body@, block_offset as int, desc);
    if desc.offset < 0 || desc.length < 0 {
        return Err(DecodeError::Corruption);
    }
    let start_wide: u128 = block_offset as u128 + desc.offset as u128;
    let end_wide: u128 = start_wide + desc.length as u128;
    if end_wide > body.len() as u128 {
        return Err(DecodeError::Corruption);
    }
    let start: usize = start_wide as usize;
    let rlen: usize = desc.length as usize;
    proof {
        assert(gregion == Some(body@.subrange(start as int, start as int + rlen)));
    }
    match compression {
        Option::None => {
            if needed > rlen {
                return Err(DecodeError::Corruption);
            }
            let out = copy_range(body, start, needed);
            proof {
                assert(out@ =~= gregion->Some_0.take(needed as int));
            }
            Ok(out)
        },
        Option::Some(_) => {
            if rlen < 8 {
                return Err(DecodeError::Corruption);
            }
            let prefix_bytes = copy_range(body, start, 8);
            let ghost reg = gregion->Some_0;
            proof {
                assert(prefix_bytes@ =~= reg.take(8));
                assert(elem_bytes(prefix_bytes@, 0, 8, true) =~= prefix_bytes@);
            }
            let prefix = decode_element(&prefix_bytes, 0, IntKind::Int64, true);
            if prefix == -1i128 {
                if needed > rlen - 8 {
                    return Err(DecodeError::Corruption);
                }
                let out = copy_range(body, start + 8, needed);
                proof {
                    assert(reg.skip(8).len() == rlen - 8);
                    assert(out@ =~= reg.skip(8).take(needed as int));
                }
                Ok(out)
            } else {
                let payload = copy_range(body, start + 8, rlen - 8);
                proof {
                    assert(payload@ =~= reg.skip(8));
                }
                match lz4_decompress(&payload, needed) {
                    Ok(v) => {
                        if v.len() != needed {
                            return Err(DecodeError::Compression);
                        }
                        Ok(v)
                    },
                    Err(e) => Err(e),
                }
            }
        },
    }
}

/// The first `length` bits of a packed byte region, unpacked.
pub open spec fn packed_seq(bytes: Seq<u8>, length: int) -> Seq<bool> {
    Seq::new(length as nat, |i: int| packed_bit(bytes, i))
}

/// The ghost outcome of the validity slot: the slot is always consumed;
/// with a zero null count no bitmap is materialized.
pub open spec fn validity_spec(
    body: Seq<u8>,
    block_offset: int,
    compression: Option<Compression>,
    desc: BufferDesc,
    null_count: int,
    length: int,
) -> Result<Option<Seq<bool>>, DecodeError> {
    if null_count == 0 {
        Ok(None)
    } else {
        match buffer_bytes(body, block_offset, compression, desc, (length + 7) / 8) {
            Ok(bytes) => Ok(Some(packed_seq(bytes, length))),
            Err(e) => Err(e),
        }
    }
}

/// An exec validity result matches a ghost one.
pub open spec fn validity_result_matches(
    r: Result<Option<Bitmap>, DecodeError>,
    s: Result<Option<Seq<bool>>, DecodeError>,
) -> bool {
    match r {
        Ok(v) => s == Ok::<Option<Seq<bool>>, DecodeError>(crate::bitmap::validity_view(v)),
        Err(e) => s == Err::<Option<Seq<bool>>, DecodeError>(e),
    }
}

/// Reads the validity slot of one field node: always consumes one buffer
/// descriptor; materializes a bitmap of `length` bits only when the node
/// declares nulls.
pub fn read_validity(
    buffers: &mut BufferQueue,
    node: FieldNode,
    length: usize,
    body: &Vec<u8>,
    block_offset: u64,
    compression: Option<Compression>,
) -> (r: Result<Option<Bitmap>, DecodeError>)
    ensures
        old(buffers)@.len() == 0 ==> r == Err::<Option<Bitmap>, DecodeError>(
            DecodeError::Corruption,
        ) && final(buffers)@ == old(buffers)@,
        old(buffers)@.len() > 0 ==> final(buffers)@ == old(buffers)@.drop_first()
            && validity_result_matches(
            r,
            validity_spec(
                body@,
                block_offset as int,
                compression,
                old(buffers)@[0],
                node.null_count as int,
                length as int,
            ),
        ),
        r matches Ok(Some(b)) ==> b@.len() == length,
        r matches Ok(v) ==> (v is Some <==> node.null_count != 0),
    {
    if node.null_count == 0 {
        match buffers.pop_buffer() {
            Ok(_) => Ok(None),
            Err(e) => Err(e),
        }
    } else {
        let bytes_needed: usize = length / 8 + if length % 8 == 0 {
            0usize
        } else {
            1usize
        };
        proof {
            assert(bytes_needed == (length + 7) / 8);
        }
        match read_buffer_bytes(buffers, body, block_offset, compression, bytes_needed) {
            Ok(bytes) => {
                proof {
                    assert(length <= bytes@.len() * 8);
                }
                let bm = Bitmap::from_packed(&bytes, length);
                proof {
                    assert(bm@ =~= Seq::new(length as nat, |i: int| packed_bit(bytes@, i)));
                }
                Ok(Some(bm))
            },
            Err(e) => Err(e),
        }
    }
}

} // verus!
