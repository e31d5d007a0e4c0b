//! Classification and unpacking of single datagrams.
//!
//! The two leading bytes of a datagram tell what it holds:
//!
//! | leading bytes | content |
//! |---|---|
//! | `0x1e 0x0f` | one fragment of a chunked message |
//! | `0x1f 0x8b` | a gzip stream |
//! | `0x78 y`, the pair a multiple of 31 | a zlib stream |
//! | any other two bytes | the text itself |

use vstd::prelude::*;
use vstd::utf8::{decode_utf8, encode_utf8, valid_utf8};
pub use crate::chunk::Chunk;
use crate::chunk::{chunk_of, holds_chunk, ChunkView};
use crate::clock::{read_clock, Timestamp};
use crate::codec::{gzip_inflated, inflate_gzip, inflate_zlib, zlib_inflated};
use crate::error::Error;

verus! {

broadcast use vstd::utf8::group_utf8_lib;

/// What a datagram turned out to hold.
#[derive(Debug)]
pub enum Payload {
    /// A whole message.
    Complete(String),
    /// One fragment of a chunked message.
    Partial(Chunk),
}

/// What a datagram turned out to hold, as mathematical values.
pub enum PayloadView {
    Complete(Seq<char>),
    Partial(ChunkView),
}

impl View for Payload {
    type V = PayloadView;

    open spec fn view(&self) -> PayloadView {
        match self {
            Payload::Complete(text) => PayloadView::Complete(text@),
            Payload::Partial(chunk) => PayloadView::Partial(chunk@),
        }
    }
}

/// How the text of a complete message is encoded in its datagram.
pub enum Encoding {
    Gzip,
    Zlib,
    Plain,
}

/// The zlib header check: the two header bytes, read as a big-endian number
/// whose first byte is `0x78`, are a multiple of 31. Every compression level
/// passes it.
pub open spec fn zlib_check(second_byte: u8) -> bool {
    (256 * 0x78 + second_byte) % 31 == 0
}

/// Whether a datagram starts with the magic bytes of a fragment.
pub open spec fn is_chunked(packet: Seq<u8>) -> bool {
    packet.len() >= 2 && packet[0] == 0x1e && packet[1] == 0x0f
}

/// The encoding that the leading bytes announce, or `None` where the
/// datagram has fewer than two bytes. The magic bytes of a fragment announce
/// nothing here: a message is never unpacked into fragments a second time.
pub open spec fn encoding_of(packet: Seq<u8>) -> Option<Encoding> {
    if packet.len() < 2 {
        None
    } else if packet[0] == 0x1f && packet[1] == 0x8b {
        Some(Encoding::Gzip)
    } else if packet[0] == 0x78 && zlib_check(packet[1]) {
        Some(Encoding::Zlib)
    } else {
        Some(Encoding::Plain)
    }
}

/// The text that `bytes` encode in UTF-8.
pub open spec fn text_of(bytes: Seq<u8>) -> Result<Seq<char>, Error> {
    if valid_utf8(bytes) {
        Ok(decode_utf8(bytes))
    } else {
        Err(Error::InvalidUtf8)
    }
}

/// The text that a decoder's outcome stands for.
pub open spec fn text_of_inflated(inflated: Option<Seq<u8>>) -> Result<Seq<char>, Error> {
    match inflated {
        Some(bytes) => text_of(bytes),
        None => Err(Error::DecompressionError),
    }
}

/// The text of the complete message that a datagram holds.
pub open spec fn complete_text(packet: Seq<u8>) -> Result<Seq<char>, Error> {
    match encoding_of(packet) {
        None => Err(Error::PacketTooShort),
        Some(Encoding::Gzip) => text_of_inflated(gzip_inflated(packet)),
        Some(Encoding::Zlib) => text_of_inflated(zlib_inflated(packet)),
        Some(Encoding::Plain) => text_of(packet),
    }
}

/// What a datagram that was read at `arrival` holds.
pub open spec fn unpacked(packet: Seq<u8>, arrival: Timestamp) -> Result<PayloadView, Error> {
    if is_chunked(packet) {
        if holds_chunk(packet) {
            Ok(PayloadView::Partial(chunk_of(packet, arrival)))
        } else {
            Err(Error::ChunkTooShort)
        }
    } else {
        match complete_text(packet) {
            Ok(text) => Ok(PayloadView::Complete(text)),
            Err(e) => Err(e),
        }
    }
}

/// A text result with the string taken by its view.
pub open spec fn text_view(unpacked: Result<String, Error>) -> Result<Seq<char>, Error> {
    match unpacked {
        Ok(text) => Ok(text@),
        Err(e) => Err(e),
    }
}

/// An unpacking result with the payload taken by its view.
pub open spec fn payload_view(unpacked: Result<Payload, Error>) -> Result<PayloadView, Error> {
    match unpacked {
        Ok(payload) => Ok(payload@),
        Err(e) => Err(e),
    }
}

/// A decoder's outcome with the bytes taken by their view.
pub open spec fn inflated_view(inflated: Option<Vec<u8>>) -> Option<Seq<u8>> {
    match inflated {
        Some(bytes) => Some(bytes@),
        None => None,
    }
}

/// Whether `second_byte` completes a valid zlib header after `0x78`.
pub fn is_zlib(second_byte: u8) -> (valid: bool)
    ensures
        valid == zlib_check(second_byte),
{
    let word: u16 = 30720 + second_byte as u16;
    word % 31 == 0
}

/// Reads `packet` as UTF-8 text.
pub fn unpack_uncompressed(packet: &[u8]) -> (unpacked: Result<String, Error>)
    ensures
        text_view(unpacked) == text_of(packet@),
{
    match core::str::from_utf8(packet) {
        Ok(payload) => Ok(payload.to_owned()),
        Err(_) => Err(Error::InvalidUtf8),
    }
}

/// Turns the outcome of a decoder into text: a failed decoding is a
/// decompression error, decoded bytes are read as UTF-8.
pub fn unpack_inflated(inflated: Option<Vec<u8>>) -> (unpacked: Result<String, Error>)
    ensures
        text_view(unpacked) == text_of_inflated(inflated_view(inflated)),
{
    match inflated {
        Some(bytes) => unpack_uncompressed(bytes.as_slice()),
        None => Err(Error::DecompressionError),
    }
}

/// Decodes `packet` as a gzip stream and reads the result as UTF-8 text.
pub fn unpack_gzip(packet: &[u8]) -> (unpacked: Result<String, Error>)
    ensures
        text_view(unpacked) == text_of_inflated(gzip_inflated(packet@)),
{
    unpack_inflated(inflate_gzip(packet))
}

/// Decodes `packet` as a zlib stream and reads the result as UTF-8 text.
pub fn unpack_zlib(packet: &[u8]) -> (unpacked: Result<String, Error>)
    ensures
        text_view(unpacked) == text_of_inflated(zlib_inflated(packet@)),
{
    unpack_inflated(inflate_zlib(packet))
}

/// Unpacks a datagram that holds a whole message: decompresses it where its
/// leading bytes announce gzip or zlib, and reads the result as UTF-8 text.
/// The string returned is the caller's own; `packet` can be reused.
pub fn unpack_complete(packet: &[u8]) -> (unpacked: Result<String, Error>)
    ensures
        text_view(unpacked) == complete_text(packet@),
{
    if packet.len() < 2 {
        Err(Error::PacketTooShort)
    } else if packet[0] == 0x1f && packet[1] == 0x8b {
        unpack_gzip(packet)
    } else if packet[0] == 0x78 && is_zlib(packet[1]) {
        unpack_zlib(packet)
    } else {
        unpack_uncompressed(packet)
    }
}

/// Unpacks a datagram that was read at `arrival`: a fragment where it starts
/// with the magic bytes of one, a whole message otherwise.
pub fn unpack_at(packet: &[u8], arrival: Timestamp) -> (parsed: Result<Payload, Error>)
    ensures
        payload_view(parsed) == unpacked(packet@, arrival),
{
    if packet.len() >= 2 && packet[0] == 0x1e && packet[1] == 0x0f {
        match Chunk::from_packet_at(packet, arrival) {
            Ok(chunk) => Ok(Payload::Partial(chunk)),
            Err(e) => Err(e),
        }
    } else {
        match unpack_complete(packet) {
            Ok(text) => Ok(Payload::Complete(text)),
            Err(e) => Err(e),
        }
    }
}

/// Unpacks a datagram: a fragment, stamped with the current time, where it
/// starts with the magic bytes of one, a whole message otherwise.
pub fn unpack(packet: &[u8]) -> (parsed: Result<Payload, Error>)
    ensures
        parsed matches Ok(Payload::Partial(chunk)) ==> payload_view(parsed) == unpacked(
            packet@,
            chunk.arrival,
        ),
        !is_chunked(packet@) ==> forall|arrival: Timestamp|
            payload_view(parsed) == #[trigger] unpacked(packet@, arrival),
        is_chunked(packet@) && !holds_chunk(packet@) ==> parsed == Err::<Payload, Error>(
            Error::ChunkTooShort,
        ),
        is_chunked(packet@) && holds_chunk(packet@) ==> parsed matches Ok(Payload::Partial(_)),
{
    let arrival = read_clock();
    unpack_at(packet, arrival)
}

/// A datagram of at least two bytes that are valid UTF-8, and whose first
/// byte is none of `0x1e`, `0x1f` and `0x78`, unpacks to the text that its
/// bytes encode, whenever it is read.
pub proof fn lemma_plain_text_unpacks_to_itself(packet: Seq<u8>, arrival: Timestamp)
    requires
        packet.len() >= 2,
        valid_utf8(packet),
        packet[0] != 0x1e,
        packet[0] != 0x1f,
        packet[0] != 0x78,
    ensures
        unpacked(packet, arrival) == Ok::<PayloadView, Error>(
            PayloadView::Complete(decode_utf8(packet)),
        ),
        encode_utf8(decode_utf8(packet)) == packet,
{
}

/// A message sent in a single datagram is unpacked to itself: as plain
/// text where its UTF-8 encoding is at least two bytes long and announces no
/// other content, and as a gzip or zlib stream where the stream starts with
/// the header of its kind and its decoder yields the message's encoding.
pub proof fn lemma_single_datagram_round_trip(
    message: Seq<char>,
    packet: Seq<u8>,
    arrival: Timestamp,
)
    requires
        packet.len() >= 2,
        !is_chunked(packet),
        match encoding_of(packet) {
            Some(Encoding::Gzip) => gzip_inflated(packet) == Some(encode_utf8(message)),
            Some(Encoding::Zlib) => zlib_inflated(packet) == Some(encode_utf8(message)),
            _ => packet == encode_utf8(message),
        },
    ensures
        unpacked(packet, arrival) == Ok::<PayloadView, Error>(PayloadView::Complete(message)),
{
}

} // verus!
