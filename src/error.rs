use vstd::prelude::*;

verus! {

/// The ways in which decoding or editing a chunk stream can fail.
#[derive(Debug, Clone, Copy, PartialEq, Eq, Structural)]
pub enum FormatError {
    /// The buffer does not start with the eight PNG signature bytes.
    BadSignature,
    /// A declared chunk length does not match the bytes that follow it.
    TruncatedChunk,
    /// A chunk record is shorter than its fixed fields.
    TooShort,
    /// A chunk type holds a byte that is not an ASCII letter.
    InvalidChunkType,
    /// A textual chunk type is not exactly four bytes long.
    InvalidLength,
    /// The stored CRC differs from the one computed over type and data.
    ChecksumMismatch,
    /// A chunk's data is not valid UTF-8.
    InvalidUtf8,
    /// No chunk of the requested type exists.
    ChunkNotFound,
}

} // verus!
