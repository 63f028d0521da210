//! Decoding of nested, nullable columnar arrays from a flat binary wire
//! format: per-array field nodes and per-buffer descriptors are consumed in
//! schema preorder, buffers are optionally decompressed, and every array is
//! built through invariant-checking constructors.

pub mod array;
pub mod bitmap;
pub mod comparison;
pub mod datatypes;
pub mod decode;
pub mod dictionaries;
pub mod error;
pub mod fmt;
pub mod ipc;
pub mod model;
pub mod read_basic;
