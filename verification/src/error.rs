//! The closed set of decode failures. Every anomaly during decoding surfaces
//! as one of these variants immediately; nothing is retried or substituted
//! silently (the one sanctioned substitution, the legacy offsets fallback, is
//! documented at its use site).

use vstd::prelude::*;

verus! {

/// A hard decode failure.
#[derive(Clone, Copy, Debug, PartialEq, Eq, Structural)]
pub enum DecodeError {
    /// A metadata queue underflowed, a buffer descriptor pointed outside the
    /// message body, or decoded buffer contents violate a structural
    /// invariant (non-monotonic offsets, an out-of-range dictionary key).
    Corruption,
    /// A constructed child disagrees with the declared schema: wrong declared
    /// type, mismatched sibling lengths, or a malformed validity length.
    SchemaMismatch,
    /// A recognized physical kind that the decoder does not materialize.
    UnsupportedType,
    /// A compressed buffer whose codec failed or whose decompressed byte
    /// length disagrees with the element count the schema requires.
    Compression,
    /// A dictionary-encoded column referenced an id that no previously
    /// ingested dictionary batch registered.
    DictionaryNotFound,
}

} // verus!
