//! The errors that unpacking and reassembly report.

use vstd::prelude::*;

verus! {

/// Why a datagram or a fragment was rejected.
#[derive(Debug, Clone, Copy, PartialEq, Eq, Structural)]
pub enum Error {
    /// The datagram has fewer than two bytes, so its kind cannot be told.
    PacketTooShort,
    /// A chunk datagram is shorter than its header, or announces no slot.
    ChunkTooShort,
    /// The fragment's sequence number names no slot of its message.
    SequenceOutOfRange,
    /// The gzip or zlib stream could not be decoded.
    DecompressionError,
    /// The decoded bytes are not valid UTF-8.
    InvalidUtf8,
    /// An eviction could not be scheduled because the reaper has quit.
    ReaperUnavailable,
}

} // verus!
