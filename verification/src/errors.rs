//! The closed set of errors that chunk parsing, container parsing, lookup and
//! payload decoding can report. No core operation panics or prints; every
//! failure surfaces as one of these variants.

use vstd::prelude::*;

verus! {

/// Everything that can go wrong while parsing, editing or decoding a file.
#[derive(Debug)]
pub enum PNGMEErrors {
    /// The 4 type bytes fail the ASCII-letter or reserved-bit rule.
    InvalidChunkType([u8; 4]),
    /// Fewer bytes are available than the declared or minimum chunk framing
    /// requires.
    InvalidChunkSize(),
    /// The stored checksum does not match the recomputed one; carries the
    /// recomputed value first, the stored value second.
    InvalidCrc(u32, u32),
    /// The first 8 bytes of the file differ from the canonical signature.
    InvalidHeader([u8; 8]),
    /// A removal or lookup target is not present in the container.
    UnknownChunkType(),
    /// A payload is not valid UTF-8 although a textual view was requested.
    EncodingError(),
}

} // verus!
