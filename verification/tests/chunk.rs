use gelf::chunk::Chunk;
use gelf::clock::Timestamp;
use gelf::error::Error;

#[test]
fn construct_from_packet() {
    let json = r#"{message":"foo","host":"bar","_utf8":"âœ“"}"#;
    let id = "amessage";
    let sequence_number = 1;
    let sequence_count = 1;

    let mut bytes: Vec<u8> = vec![0x1e, 0x0f];
    bytes.extend_from_slice(id.as_bytes());
    bytes.push(sequence_number);
    bytes.push(sequence_count);
    bytes.extend_from_slice(json.as_bytes());
    let packet = bytes.as_slice();

    let chunk = Chunk::from_packet(packet).unwrap();

    assert_eq!(id.as_bytes(), chunk.id.as_slice());
    assert_eq!(sequence_number, chunk.sequence_number);
    assert_eq!(sequence_count, chunk.sequence_count);
    assert_eq!(json.as_bytes(), chunk.payload.as_slice());
    println!("{:?}", chunk.arrival);
}

fn header(number: u8, count: u8) -> Vec<u8> {
    let mut bytes: Vec<u8> = vec![0x1e, 0x0f];
    bytes.extend_from_slice(&[1, 2, 3, 4, 5, 6, 7, 8]);
    bytes.push(number);
    bytes.push(count);
    bytes
}

#[test]
fn chunk_shorter_than_its_header_is_too_short() {
    let full = header(1, 1);
    for len in 0..12 {
        assert_eq!(Chunk::from_packet(&full[..len]).err(), Some(Error::ChunkTooShort));
    }
}

#[test]
fn chunk_of_header_alone_has_an_empty_payload() {
    let chunk = Chunk::from_packet(&header(3, 4)).unwrap();
    assert_eq!(chunk.id, [1, 2, 3, 4, 5, 6, 7, 8]);
    assert_eq!(chunk.sequence_number, 3);
    assert_eq!(chunk.sequence_count, 4);
    assert!(chunk.payload.is_empty());
}

#[test]
fn chunk_that_announces_no_fragment_is_too_short() {
    let mut bytes = header(1, 0);
    bytes.extend_from_slice(b"body");
    assert_eq!(Chunk::from_packet(&bytes).err(), Some(Error::ChunkTooShort));
}

#[test]
fn sequence_number_is_not_held_against_the_count() {
    let chunk = Chunk::from_packet(&header(9, 2)).unwrap();
    assert_eq!(chunk.sequence_number, 9);
    assert_eq!(chunk.sequence_count, 2);
    let chunk = Chunk::from_packet(&header(0, 2)).unwrap();
    assert_eq!(chunk.sequence_number, 0);
}

#[test]
fn magic_bytes_are_not_examined_by_the_parser() {
    let mut bytes = header(1, 1);
    bytes[0] = 0;
    bytes[1] = 0;
    assert!(Chunk::from_packet(&bytes).is_ok());
}

#[test]
fn arrival_is_the_time_given() {
    let arrival = Timestamp { sec: 17, nsec: 250 };
    let mut bytes = header(1, 2);
    bytes.extend_from_slice(&[9, 8, 7]);
    let chunk = Chunk::from_packet_at(&bytes, arrival).unwrap();
    assert_eq!(chunk.arrival, arrival);
    assert_eq!(chunk.payload, vec![9, 8, 7]);
}

#[test]
fn arrival_is_read_from_the_clock() {
    let before = time::get_time();
    let chunk = Chunk::from_packet(&header(1, 1)).unwrap();
    let after = time::get_time();
    assert!(chunk.arrival.sec >= before.sec && chunk.arrival.sec <= after.sec);
    assert!(chunk.arrival.sec > 1_000_000_000);
    assert!(chunk.arrival.nsec >= 0 && chunk.arrival.nsec < 1_000_000_000);
}
