//! A compact binary serialization codec: a variable-length ("bit7") integer
//! encoding with zigzag mapping for signed values, a growable write cursor,
//! and a read cursor over an immutable byte sequence.

pub mod reader;
pub mod storage;
pub mod varint;
pub mod writer;
pub mod zigzag;
