use std::io::Write;

use flate2::write::{GzEncoder, ZlibEncoder};
use flate2::Compression;
use gelf::error::Error;
use gelf::message::{is_zlib, unpack, unpack_complete, unpack_inflated, unpack_uncompressed, Payload};

#[test]
fn unpack_with_uncompressed() {
    let json = r#"{message":"foo","host":"bar","_utf8":"✓"}"#;
    let packet = json.as_bytes();

    match unpack(packet).unwrap() {
        Payload::Partial(_) => assert!(false, "Expected 'Complete' result."),
        Payload::Complete(s) => assert_eq!(json, s.as_str()),
    }
}

#[test]
fn unpack_with_gzip() {
    let json = r#"{"message":"foo","host":"bar","_utf8":"✓"}"#;
    let mut e = GzEncoder::new(Vec::new(), Compression::default());
    e.write_all(json.as_bytes()).unwrap();
    let byte_vec = e.finish().unwrap();
    let packet = byte_vec.as_slice();

    match unpack(packet).unwrap() {
        Payload::Partial(_) => assert!(false, "Expected 'Complete' result."),
        Payload::Complete(s) => assert_eq!(json, s.as_str()),
    }
}

#[test]
fn unpack_with_zlib() {
    let json = r#"{"message":"foo","host":"bar","_utf8":"✓"}"#;
    let mut e = ZlibEncoder::new(Vec::new(), Compression::default());
    e.write_all(json.as_bytes()).unwrap();
    let byte_vec = e.finish().unwrap();
    let packet = byte_vec.as_slice();

    match unpack(packet).unwrap() {
        Payload::Partial(_) => assert!(false, "Expected 'Complete' result."),
        Payload::Complete(s) => assert_eq!(json, s.as_str()),
    }
}

#[test]
fn unpack_errors_with_no_bytes() {
    let packet: &[u8] = &[];

    assert!(unpack(packet).is_err());
}

#[test]
fn unpack_errors_with_one_byte() {
    let packet: &[u8] = &[0x0f];

    assert!(unpack(packet).is_err());
}

#[test]
fn one_byte_is_a_packet_too_short() {
    assert_eq!(unpack(&[0x0f]).err(), Some(Error::PacketTooShort));
    assert_eq!(unpack(&[]).err(), Some(Error::PacketTooShort));
    assert_eq!(unpack_complete(&[0x78]).err(), Some(Error::PacketTooShort));
}

#[test]
fn uncompressed_payload_comes_back_unchanged() {
    let json = r#"{"message":"foo","host":"bar","_utf8":"✓"}"#;
    assert_eq!(unpack_complete(json.as_bytes()), Ok(json.to_string()));
}

#[test]
fn zlib_header_check_accepts_every_compression_level() {
    // 0x7801, 0x785e, 0x789c and 0x78da are the headers of the four levels.
    assert!(is_zlib(0x01));
    assert!(is_zlib(0x5e));
    assert!(is_zlib(0x9c));
    assert!(is_zlib(0xda));
    assert!(!is_zlib(0x00));
    assert!(!is_zlib(0x9d));
    // 0x7800 leaves 30 when divided by 31, so the valid bytes are 1, 32, .. 249.
    let valid: Vec<u8> = (0..=255u8).filter(|b| is_zlib(*b)).collect();
    assert_eq!(valid, vec![1, 32, 63, 94, 125, 156, 187, 218, 249]);
}

#[test]
fn zlib_at_each_level_round_trips() {
    let text = "a line of text, a line of text, a line of text";
    for level in [Compression::none(), Compression::fast(), Compression::default(), Compression::best()] {
        let mut e = ZlibEncoder::new(Vec::new(), level);
        e.write_all(text.as_bytes()).unwrap();
        let packet = e.finish().unwrap();
        assert_eq!(packet[0], 0x78);
        assert_eq!(unpack_complete(&packet), Ok(text.to_string()));
    }
}

#[test]
fn gzip_round_trips_and_differs_from_its_input() {
    let text = "the quick brown fox";
    let mut e = GzEncoder::new(Vec::new(), Compression::default());
    e.write_all(text.as_bytes()).unwrap();
    let packet = e.finish().unwrap();
    assert_eq!(&packet[..2], &[0x1f, 0x8b]);
    assert_ne!(packet.as_slice(), text.as_bytes());
    assert_eq!(unpack_complete(&packet), Ok(text.to_string()));
}

#[test]
fn corrupt_streams_are_decompression_errors() {
    assert_eq!(unpack_complete(&[0x1f, 0x8b, 0x00, 0x01, 0x02]), Err(Error::DecompressionError));
    assert_eq!(unpack_complete(&[0x78, 0x9c, 0xff, 0xff, 0xff]), Err(Error::DecompressionError));
    assert_eq!(unpack_complete(&[0x1f, 0x8b]), Err(Error::DecompressionError));
}

#[test]
fn truncated_stream_is_a_decompression_error() {
    let mut e = ZlibEncoder::new(Vec::new(), Compression::default());
    e.write_all(b"some text that will be cut short").unwrap();
    let packet = e.finish().unwrap();
    assert_eq!(unpack_complete(&packet[..packet.len() / 2]), Err(Error::DecompressionError));
}

#[test]
fn compressed_bytes_that_are_no_text_are_invalid_utf8() {
    let mut e = GzEncoder::new(Vec::new(), Compression::default());
    e.write_all(&[0xff, 0xfe, 0xfd]).unwrap();
    let packet = e.finish().unwrap();
    assert_eq!(unpack_complete(&packet), Err(Error::InvalidUtf8));

    let mut e = ZlibEncoder::new(Vec::new(), Compression::default());
    e.write_all(&[0xc3, 0x28]).unwrap();
    let packet = e.finish().unwrap();
    assert_eq!(unpack_complete(&packet), Err(Error::InvalidUtf8));
}

#[test]
fn plain_bytes_that_are_no_text_are_invalid_utf8() {
    assert_eq!(unpack_complete(&[0x41, 0xff]), Err(Error::InvalidUtf8));
    assert_eq!(unpack_uncompressed(&[0xe2, 0x9c]), Err(Error::InvalidUtf8));
    assert_eq!(unpack_uncompressed(&[0xe2, 0x9c, 0x93]), Ok("✓".to_string()));
    assert_eq!(unpack_uncompressed(&[]), Ok(String::new()));
}

#[test]
fn outcome_of_a_decoder_becomes_text() {
    assert_eq!(unpack_inflated(None), Err(Error::DecompressionError));
    assert_eq!(unpack_inflated(Some(b"abc".to_vec())), Ok("abc".to_string()));
    assert_eq!(unpack_inflated(Some(vec![0x80])), Err(Error::InvalidUtf8));
}

#[test]
fn zlib_first_byte_without_the_check_is_plain_text() {
    // 'x' is 0x78; "xy" fails the header check and is read as text.
    assert!(!is_zlib(b'y'));
    assert_eq!(unpack_complete(b"xyz"), Ok("xyz".to_string()));
}

#[test]
fn chunk_magic_is_not_looked_for_in_a_complete_message() {
    let bytes = [0x1e, 0x0f, b'a', b'b'];
    assert_eq!(unpack_complete(&bytes), Ok("\u{1e}\u{0f}ab".to_string()));
    assert_eq!(unpack(&bytes).err(), Some(Error::ChunkTooShort));
}

#[test]
fn chunk_magic_gives_a_partial_payload() {
    let mut bytes: Vec<u8> = vec![0x1e, 0x0f];
    bytes.extend_from_slice(b"idididid");
    bytes.push(2);
    bytes.push(3);
    bytes.extend_from_slice(b"body");
    match unpack(&bytes).unwrap() {
        Payload::Partial(chunk) => {
            assert_eq!(&chunk.id, b"idididid");
            assert_eq!(chunk.sequence_number, 2);
            assert_eq!(chunk.sequence_count, 3);
            assert_eq!(chunk.payload, b"body".to_vec());
        }
        Payload::Complete(_) => panic!("expected a fragment"),
    }
}
