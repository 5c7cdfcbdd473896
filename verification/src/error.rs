//! The ways in which decoding or editing a PNG byte stream can fail.

use vstd::prelude::*;

verus! {

/// A failure reported by this crate.
#[derive(Clone, Copy, Debug, PartialEq, Eq, Structural)]
pub enum PngError {
    /// A chunk type tag is not four ASCII letters.
    InvalidChunkType,
    /// The checksum stored in a chunk differs from the one computed over its
    /// type tag and data.
    CrcMismatch,
    /// The buffer ends before the chunk that its length field announces.
    Truncated,
    /// The buffer does not begin with the PNG signature.
    InvalidSignature,
    /// No chunk of the requested type is present.
    ChunkNotFound,
    /// The chunk data is not valid UTF-8 text.
    Utf8Error,
}

} // verus!
