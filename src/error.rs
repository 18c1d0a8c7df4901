use vstd::prelude::*;

verus! {

/// Every way in which building, parsing or querying a PNG value can fail.
#[derive(Debug, Clone, Copy, PartialEq, Eq, Structural)]
pub enum PngError {
    /// A chunk-type byte is not an ASCII letter.
    InvalidTypeBytes,
    /// A chunk-type text is not exactly four bytes long.
    InvalidLength,
    /// Too few bytes remain to hold a whole chunk frame.
    BufferTooShort,
    /// The chunk type has its reserved bit set.
    InvalidChunkType,
    /// The stored checksum differs from the one computed over type and payload.
    CrcMismatch,
    /// The stream does not start with the PNG signature.
    BadSignature,
    /// No chunk carries the requested type.
    ChunkNotFound,
    /// The payload is not valid UTF-8.
    InvalidEncoding,
    /// The payload is too long for the 32-bit length field.
    PayloadTooLarge,
}

} // verus!
