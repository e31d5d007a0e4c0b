use std::io::Write;
use std::sync::{Arc, Mutex};

use flate2::write::{GzEncoder, ZlibEncoder};
use flate2::Compression;
use gelf::clock::Timestamp;
use gelf::error::Error;
use gelf::receiver::{Handler, Receiver, MAX_DATAGRAM_LEN};

const JSON: &str = r#"{"message":"foo","host":"bar","_utf8":"✓"}"#;

struct Collector {
    messages: Arc<Mutex<Vec<String>>>,
}

impl Handler for Collector {
    fn call(&self, message: String) {
        self.messages.lock().unwrap().push(message);
    }
}

fn collecting() -> (Receiver<Collector>, Arc<Mutex<Vec<String>>>) {
    let messages = Arc::new(Mutex::new(Vec::new()));
    (Receiver::new(Collector { messages: messages.clone() }), messages)
}

fn datagram(id: &[u8; 8], number: u8, count: u8, payload: &[u8]) -> Vec<u8> {
    let mut bytes: Vec<u8> = vec![0x1e, 0x0f];
    bytes.extend_from_slice(id);
    bytes.push(number);
    bytes.push(count);
    bytes.extend_from_slice(payload);
    bytes
}

fn at(sec: i64) -> Timestamp {
    Timestamp { sec, nsec: 0 }
}

#[test]
fn function_of_one_string_is_a_handler() {
    let messages = Arc::new(Mutex::new(Vec::new()));
    let sink = messages.clone();
    let mut receiver = Receiver::new(move |message: String| sink.lock().unwrap().push(message));
    assert_eq!(receiver.receive(b"to a closure"), Ok(true));
    assert_eq!(*messages.lock().unwrap(), vec!["to a closure".to_string()]);
}

#[test]
fn largest_datagram_is_header_and_body() {
    assert_eq!(MAX_DATAGRAM_LEN, 12 + 1420);
}

#[test]
fn uncompressed_payload_reaches_the_handler() {
    let (mut receiver, messages) = collecting();
    assert_eq!(receiver.receive(JSON.as_bytes()), Ok(true));
    assert_eq!(*messages.lock().unwrap(), vec![JSON.to_string()]);
}

#[test]
fn gzip_payload_reaches_the_handler() {
    let mut e = GzEncoder::new(Vec::new(), Compression::default());
    e.write_all(JSON.as_bytes()).unwrap();
    let packet = e.finish().unwrap();
    let (mut receiver, messages) = collecting();
    assert_eq!(receiver.receive(&packet), Ok(true));
    assert_eq!(*messages.lock().unwrap(), vec![JSON.to_string()]);
}

#[test]
fn zlib_payload_reaches_the_handler() {
    let mut e = ZlibEncoder::new(Vec::new(), Compression::default());
    e.write_all(JSON.as_bytes()).unwrap();
    let packet = e.finish().unwrap();
    let (mut receiver, messages) = collecting();
    assert_eq!(receiver.receive(&packet), Ok(true));
    assert_eq!(*messages.lock().unwrap(), vec![JSON.to_string()]);
}

#[test]
fn chunks_of_22_bytes_in_reverse_order_reach_the_handler_as_one_message() {
    let bytes = JSON.as_bytes();
    let id = *b"\x01\x23\x45\x67\x89\xab\xcd\xef";
    let (mut receiver, messages) = collecting();
    assert_eq!(receiver.receive(&datagram(&id, 2, 2, &bytes[22..])), Ok(false));
    assert!(messages.lock().unwrap().is_empty());
    assert_eq!(receiver.receive(&datagram(&id, 1, 2, &bytes[..22])), Ok(true));
    assert_eq!(*messages.lock().unwrap(), vec![JSON.to_string()]);
}

#[test]
fn interleaved_messages_reach_the_handler_in_the_order_of_completion() {
    let (mut receiver, messages) = collecting();
    let a = *b"aaaaaaaa";
    let b = *b"bbbbbbbb";
    assert_eq!(receiver.receive_at(&datagram(&a, 1, 2, b"A-"), &at(1)), Ok(false));
    assert_eq!(receiver.receive_at(&datagram(&b, 1, 2, b"B-"), &at(1)), Ok(false));
    assert_eq!(receiver.receive_at(&datagram(&a, 2, 2, b"done"), &at(2)), Ok(true));
    assert_eq!(receiver.receive_at(&datagram(&b, 2, 2, b"done"), &at(2)), Ok(true));
    assert_eq!(*messages.lock().unwrap(), vec!["A-done".to_string(), "B-done".to_string()]);
}

#[test]
fn error_on_one_datagram_leaves_the_receiver_fit_for_the_next() {
    let (mut receiver, messages) = collecting();
    let id = *b"12345678";
    assert_eq!(receiver.receive_at(&datagram(&id, 1, 2, b"he"), &at(1)), Ok(false));
    assert_eq!(receiver.receive_at(&[0x0f], &at(1)), Err(Error::PacketTooShort));
    assert_eq!(receiver.receive_at(&[], &at(1)), Err(Error::PacketTooShort));
    assert_eq!(receiver.receive_at(&[0x1e, 0x0f, 1, 2], &at(1)), Err(Error::ChunkTooShort));
    assert_eq!(receiver.receive_at(&[0x1f, 0x8b, 0, 0], &at(1)), Err(Error::DecompressionError));
    assert_eq!(receiver.receive_at(&[0x41, 0xff], &at(1)), Err(Error::InvalidUtf8));
    assert_eq!(receiver.receive_at(&datagram(&id, 9, 2, b"??"), &at(1)), Err(Error::SequenceOutOfRange));
    assert!(messages.lock().unwrap().is_empty());
    assert_eq!(receiver.receive_at(&datagram(&id, 2, 2, b"llo"), &at(1)), Ok(true));
    assert_eq!(*messages.lock().unwrap(), vec!["hello".to_string()]);
}

#[test]
fn message_at_returns_the_text_without_calling_the_handler() {
    let (mut receiver, messages) = collecting();
    let id = *b"12345678";
    assert_eq!(receiver.message_at(b"plain", &at(1)), Ok(Some("plain".to_string())));
    assert_eq!(receiver.message_at(&datagram(&id, 1, 2, b"ab"), &at(1)), Ok(None));
    assert_eq!(receiver.message_at(&datagram(&id, 2, 2, b"cd"), &at(1)), Ok(Some("abcd".to_string())));
    assert!(messages.lock().unwrap().is_empty());
}

#[test]
fn completed_message_that_is_no_text_is_an_error_of_its_last_fragment() {
    let (mut receiver, messages) = collecting();
    let id = *b"12345678";
    assert_eq!(receiver.receive_at(&datagram(&id, 1, 2, &[0x41]), &at(1)), Ok(false));
    assert_eq!(receiver.receive_at(&datagram(&id, 2, 2, &[0xff]), &at(1)), Err(Error::InvalidUtf8));
    assert!(messages.lock().unwrap().is_empty());
    // The message is gone: its fragments start a new one.
    assert_eq!(receiver.receive_at(&datagram(&id, 2, 2, b"k"), &at(1)), Ok(false));
    assert_eq!(receiver.receive_at(&datagram(&id, 1, 2, b"o"), &at(1)), Ok(true));
    assert_eq!(*messages.lock().unwrap(), vec!["ok".to_string()]);
}

#[test]
fn fragment_after_expiry_completes_nothing() {
    let (mut receiver, messages) = collecting();
    let id = *b"12345678";
    assert_eq!(receiver.receive_at(&datagram(&id, 1, 2, b"ab"), &at(100)), Ok(false));
    assert_eq!(receiver.receive_at(&datagram(&id, 2, 2, b"cd"), &at(106)), Ok(false));
    assert!(messages.lock().unwrap().is_empty());
}

#[test]
fn reaping_drops_expired_messages_between_datagrams() {
    let (mut receiver, messages) = collecting();
    let id = *b"12345678";
    assert_eq!(receiver.receive_at(&datagram(&id, 1, 2, b"ab"), &at(100)), Ok(false));
    receiver.reap_at(&at(105));
    // The second fragment is stamped before the deadline, but comes to a
    // table that holds the message no more.
    assert_eq!(receiver.receive_at(&datagram(&id, 2, 2, b"cd"), &at(104)), Ok(false));
    receiver.reap();
    assert!(messages.lock().unwrap().is_empty());
}
