//! The receiver: what is done with each datagram that comes in.
//!
//! A datagram that holds a whole message is unpacked and handed to the
//! handler. A fragment goes to the accumulator, and the message that it
//! completes is unpacked and handed over in turn. Reading the datagrams
//! from a socket is left to the caller.

use vstd::prelude::*;
use crate::accumulator::{AccumulatorView, ChunkAccumulator};
use crate::chunk_set::ChunkSetView;
use crate::clock::{read_clock, Timestamp};
use crate::error::Error;
use crate::message::{complete_text, is_chunked, unpack_at, unpacked, Payload, PayloadView};

verus! {

/// The largest datagram that a sender of chunked messages emits: a header
/// of 12 bytes and a payload of 1420.
pub const MAX_DATAGRAM_LEN: usize = 1432;

/// Takes the messages that a receiver has put together.
pub trait Handler: Send + Sync {
    /// Whether the handler can be called with `message`. A handler takes
    /// every message unless it says otherwise.
    open spec fn takes(&self, message: String) -> bool {
        true
    }

    /// Called once for each message, with its text.
    fn call(&self, message: String)
        requires
            self.takes(message),
    ;
}

/// Every function of one string that can be shared between threads is a
/// handler; it takes the messages that it can be called with.
impl<F: Fn(String) + Send + Sync> Handler for F {
    open spec fn takes(&self, message: String) -> bool {
        self.requires((message,))
    }

    fn call(&self, message: String) {
        (*self)(message)
    }
}

/// Unpacks datagrams, reassembles chunked messages and hands every whole
/// message to its handler.
pub struct Receiver<H> {
    handler: H,
    accumulator: ChunkAccumulator,
}

/// The text of the message that a completed set holds, or nothing where no
/// set was completed.
pub open spec fn text_of_outcome(outcome: Result<Option<ChunkSetView>, Error>) -> Result<
    Option<Seq<char>>,
    Error,
> {
    match outcome {
        Ok(Some(set)) => match complete_text(set.payload()) {
            Ok(text) => Ok(Some(text)),
            Err(e) => Err(e),
        },
        Ok(None) => Ok(None),
        Err(e) => Err(e),
    }
}

/// What a datagram that is read at `now` makes of the accumulator, and the
/// text of the message that it brings or completes, if any.
///
/// A datagram that cannot be unpacked leaves the accumulator as it is. So
/// does one that holds a whole message. A fragment is accepted by the
/// accumulator, and the set that it completes is unpacked.
pub open spec fn received(state: AccumulatorView, packet: Seq<u8>, now: Timestamp) -> (
    AccumulatorView,
    Result<Option<Seq<char>>, Error>,
) {
    match unpacked(packet, now) {
        Ok(PayloadView::Complete(text)) => (state, Ok(Some(text))),
        Ok(PayloadView::Partial(chunk)) => (
            state.accept(chunk, now).0,
            text_of_outcome(state.accept(chunk, now).1),
        ),
        Err(e) => (state, Err(e)),
    }
}

/// A result with the text taken by its view.
pub open spec fn message_view(message: Result<Option<String>, Error>) -> Result<
    Option<Seq<char>>,
    Error,
> {
    match message {
        Ok(Some(text)) => Ok(Some(text@)),
        Ok(None) => Ok(None),
        Err(e) => Err(e),
    }
}

impl<H: Handler> Receiver<H> {
    /// The state of the receiver's accumulator.
    pub closed spec fn accumulator(&self) -> AccumulatorView {
        self.accumulator@
    }

    /// The receiver's accumulator is well formed, and its handler takes
    /// every message.
    pub closed spec fn wf(&self) -> bool {
        &&& self.accumulator.wf()
        &&& forall|message: String| self.handler.takes(message)
    }

    /// A receiver that hands its messages to `handler` and waits for no
    /// fragment yet. The handler is one that can be called with any text.
    pub fn new(handler: H) -> (receiver: Receiver<H>)
        requires
            forall|message: String| handler.takes(message),
        ensures
            receiver.wf(),
            receiver.accumulator() == AccumulatorView::new(),
    {
        Receiver { handler, accumulator: ChunkAccumulator::new() }
    }

    /// Serves the reaper of the receiver's accumulator every timeout that is
    /// due by `now`.
    pub fn reap_at(&mut self, now: &Timestamp)
        requires
            old(self).wf(),
        ensures
            final(self).wf(),
            final(self).accumulator() == old(self).accumulator().reap(*now),
    {
        self.accumulator.reap_at(now);
    }

    /// Serves the reaper of the receiver's accumulator every timeout that is
    /// due by the current time.
    pub fn reap(&mut self)
        requires
            old(self).wf(),
        ensures
            final(self).wf(),
            exists|now: Timestamp|
                final(self).accumulator() == #[trigger] old(self).accumulator().reap(now),
    {
        let now = read_clock();
        self.reap_at(&now);
    }

    /// Takes in a datagram that was read at `now` and returns the text of
    /// the message that it brings or completes, if any. A datagram that
    /// holds no fragment leaves the messages that wait as they are.
    pub fn message_at(&mut self, packet: &[u8], now: &Timestamp) -> (message: Result<
        Option<String>,
        Error,
    >)
        requires
            old(self).wf(),
        ensures
            final(self).wf(),
            final(self).accumulator() == received(old(self).accumulator(), packet@, *now).0,
            message_view(message) == received(old(self).accumulator(), packet@, *now).1,
            !is_chunked(packet@) ==> final(self).accumulator() == old(self).accumulator(),
    {
        match unpack_at(packet, *now) {
            Ok(Payload::Complete(text)) => Ok(Some(text)),
            Ok(Payload::Partial(chunk)) => match self.accumulator.accept_at(chunk, now) {
                Ok(Some(set)) => {
                    let mut set = set;
                    match set.unpack() {
                        Ok(text) => Ok(Some(text)),
                        Err(e) => Err(e),
                    }
                },
                Ok(None) => Ok(None),
                Err(e) => Err(e),
            },
            Err(e) => Err(e),
        }
    }

    /// Takes in a datagram that was read at `now`, and hands the message
    /// that it brings or completes to the handler. Returns whether a
    /// message was handed over. An error concerns this datagram alone: the
    /// receiver stays fit to take the next.
    pub fn receive_at(&mut self, packet: &[u8], now: &Timestamp) -> (delivered: Result<
        bool,
        Error,
    >)
        requires
            old(self).wf(),
        ensures
            final(self).wf(),
            final(self).accumulator() == received(old(self).accumulator(), packet@, *now).0,
            match received(old(self).accumulator(), packet@, *now).1 {
                Ok(message) => delivered == Ok::<bool, Error>(message is Some),
                Err(e) => delivered == Err::<bool, Error>(e),
            },
    {
        match self.message_at(packet, now) {
            Ok(Some(text)) => {
                self.handler.call(text);
                Ok(true)
            },
            Ok(None) => Ok(false),
            Err(e) => Err(e),
        }
    }

    /// Takes in a datagram at the current time, and hands the message that
    /// it brings or completes to the handler. Returns whether a message was
    /// handed over.
    pub fn receive(&mut self, packet: &[u8]) -> (delivered: Result<bool, Error>)
        requires
            old(self).wf(),
        ensures
            final(self).wf(),
            exists|now: Timestamp|
                final(self).accumulator() == (#[trigger] received(
                    old(self).accumulator(),
                    packet@,
                    now,
                )).0 && match received(old(self).accumulator(), packet@, now).1 {
                    Ok(message) => delivered == Ok::<bool, Error>(message is Some),
                    Err(e) => delivered == Err::<bool, Error>(e),
                },
    {
        let now = read_clock();
        self.receive_at(packet, &now)
    }
}

} // verus!
