//! Error kinds reported by the codec.

use vstd::prelude::*;

verus! {

/// Every way a codec operation can fail. Parsing is all-or-nothing: any
/// structural error aborts container construction with no partial result.
#[derive(Clone, Copy, Debug, PartialEq, Eq, Structural)]
pub enum ChunkError {
    /// The buffer is shorter than 8 bytes or does not begin with the
    /// fixed signature.
    InvalidSignature,
    /// A record's declared payload length exceeds the bytes remaining.
    TruncatedRecord,
    /// A record's stored checksum differs from the checksum recomputed
    /// over its type code and payload.
    ChecksumMismatch,
    /// Bytes remain after the last well-formed record, too few to frame
    /// another record's fixed fields.
    TrailingBytes,
    /// A textual type code is not exactly 4 characters.
    InvalidTypeCodeLength,
    /// A payload was requested as text but is not valid UTF-8.
    InvalidEncoding,
    /// The record targeted by a removal or lookup is absent.
    ChunkNotFound,
}

} // verus!
