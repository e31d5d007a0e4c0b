//! One fragment of a chunked message, as it is read from a datagram.
//!
//! ```text
//! offset  size  field
//! 0       2     magic, 0x1e 0x0f
//! 2       8     message id
//! 10      1     sequence number, counted from 1
//! 11      1     sequence count
//! 12      ..    payload
//! ```

use vstd::prelude::*;
use vstd::slice::{slice_subrange, slice_to_vec};
use crate::clock::{read_clock, Timestamp};
use crate::error::Error;

verus! {

/// Length of the header that precedes a fragment's payload.
pub const CHUNK_HEADER_LEN: usize = 12;

/// One fragment of a chunked message.
#[derive(Debug, Clone)]
pub struct Chunk {
    /// The id of the message that the fragment belongs to.
    pub id: [u8; 8],
    /// The fragment's place in the message, counted from 1 as on the wire.
    pub sequence_number: u8,
    /// The number of fragments that make up the message.
    pub sequence_count: u8,
    /// The fragment's share of the message.
    pub payload: Vec<u8>,
    /// When the fragment was read.
    pub arrival: Timestamp,
}

/// What a fragment holds, as mathematical values.
#[verifier::ext_equal]
pub struct ChunkView {
    pub id: [u8; 8],
    pub sequence_number: u8,
    pub sequence_count: u8,
    pub payload: Seq<u8>,
    pub arrival: Timestamp,
}

impl View for Chunk {
    type V = ChunkView;

    open spec fn view(&self) -> ChunkView {
        ChunkView {
            id: self.id,
            sequence_number: self.sequence_number,
            sequence_count: self.sequence_count,
            payload: self.payload@,
            arrival: self.arrival,
        }
    }
}

/// Whether a datagram is long enough to hold a fragment's header, and
/// announces at least one fragment.
pub open spec fn holds_chunk(packet: Seq<u8>) -> bool {
    packet.len() >= 12 && packet[11] != 0
}

/// The message id of a fragment: the eight bytes that follow the magic bytes.
pub open spec fn message_id(packet: Seq<u8>) -> [u8; 8]
    recommends
        packet.len() >= 10,
{
    [packet[2], packet[3], packet[4], packet[5], packet[6], packet[7], packet[8], packet[9]]
}

/// The fragment that a datagram holds, given the time at which it was read.
pub open spec fn chunk_of(packet: Seq<u8>, arrival: Timestamp) -> ChunkView
    recommends
        holds_chunk(packet),
{
    ChunkView {
        id: message_id(packet),
        sequence_number: packet[10],
        sequence_count: packet[11],
        payload: packet.subrange(12, packet.len() as int),
        arrival,
    }
}

impl Chunk {
    /// Reads a fragment from a datagram and stamps it with the current time.
    ///
    /// The two magic bytes are not examined. That the sequence number lies
    /// within the sequence count is not examined either: the set that takes
    /// the fragment in decides that.
    pub fn from_packet(packet: &[u8]) -> (parsed: Result<Chunk, Error>)
        ensures
            parsed is Ok <==> holds_chunk(packet@),
            parsed matches Ok(chunk) ==> chunk@ == chunk_of(packet@, chunk.arrival),
            parsed matches Err(e) ==> e == Error::ChunkTooShort,
    {
        let arrival = read_clock();
        Chunk::from_packet_at(packet, arrival)
    }

    /// Reads a fragment from a datagram that arrived at `arrival`.
    pub fn from_packet_at(packet: &[u8], arrival: Timestamp) -> (parsed: Result<Chunk, Error>)
        ensures
            parsed is Ok <==> holds_chunk(packet@),
            parsed matches Ok(chunk) ==> chunk@ == chunk_of(packet@, arrival),
            parsed matches Err(e) ==> e == Error::ChunkTooShort,
    {
        if packet.len() < CHUNK_HEADER_LEN || packet[11] == 0 {
            return Err(Error::ChunkTooShort);
        }
        let id: [u8; 8] = [
            packet[2],
            packet[3],
            packet[4],
            packet[5],
            packet[6],
            packet[7],
            packet[8],
            packet[9],
        ];
        let payload = slice_to_vec(slice_subrange(packet, CHUNK_HEADER_LEN, packet.len()));
        let chunk = Chunk {
            id,
            sequence_number: packet[10],
            sequence_count: packet[11],
            payload,
            arrival,
        };
        assert(chunk.id =~= message_id(packet@));
        Ok(chunk)
    }
}

} // verus!
