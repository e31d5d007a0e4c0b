//! Core of a GELF (Graylog Extended Log Format) UDP receiver.
//!
//! A datagram is classified by its leading bytes, decompressed where it is
//! gzip or zlib, and validated as UTF-8. Chunked messages are reassembled by
//! an accumulator whose partial sets expire after a fixed time to live.
//!
//! - [`message`] classifies and unpacks single datagrams.
//! - [`chunk`] reads one fragment of a chunked message from a datagram.
//! - [`chunk_set`] collects the fragments of one message.
//! - [`reaper`] is the state machine that schedules evictions.
//! - [`accumulator`] holds the table of waiting messages and their reaper.
//! - [`receiver`] puts these together for each datagram that comes in.
//! - [`reassembly`] and [`expiry`] state and prove what the accumulator
//!   does with the fragments of a message, in any order and over time.
//! - [`codec`] and [`clock`] hold the calls into code that is not verified:
//!   the decoders and the system clock.
//!
//! Nothing here reads a socket or starts a thread: time comes in as clock
//! readings, datagrams as byte slices.

pub mod accumulator;
pub mod chunk;
pub mod chunk_set;
pub mod clock;
pub mod codec;
pub mod error;
pub mod expiry;
pub mod message;
pub mod reaper;
pub mod reassembly;
pub mod receiver;
