//! The fragments of one message, collected until none is missing.

use vstd::prelude::*;
use crate::chunk::{Chunk, ChunkView};
use crate::clock::{read_clock, Timestamp, TTL_NANOS};
use crate::error::Error;
use crate::message::{complete_text, text_view, unpack_complete};

verus! {

/// Whether a set still waits for fragments.
#[derive(Debug, Clone, Copy, PartialEq, Eq, Structural)]
pub enum ChunkSetState {
    /// At least one slot is empty.
    Partial,
    /// Every slot is filled.
    Complete,
}

/// The reassembly state of one message: a slot for each fragment that the
/// first fragment announced, in sequence order.
#[derive(Debug)]
pub struct ChunkSet {
    slots: Vec<Option<Chunk>>,
    rcv_count: usize,
    first_arrival: Timestamp,
}

/// The reassembly state of one message, as mathematical values.
#[verifier::ext_equal]
pub struct ChunkSetView {
    /// One entry for each fragment of the message, in sequence order.
    pub slots: Seq<Option<ChunkView>>,
    /// The number of fragments taken in.
    pub rcv_count: nat,
    /// The arrival of the fragment that the set was made for.
    pub first_arrival: Timestamp,
}

/// A slot with its fragment taken by its view.
pub open spec fn slot_view(slot: Option<Chunk>) -> Option<ChunkView> {
    match slot {
        Some(chunk) => Some(chunk@),
        None => None,
    }
}

/// The number of slots that hold a fragment.
pub open spec fn filled(slots: Seq<Option<ChunkView>>) -> nat
    decreases slots.len(),
{
    if slots.len() == 0 {
        0
    } else if slots.last() is Some {
        filled(slots.drop_last()) + 1
    } else {
        filled(slots.drop_last())
    }
}

/// The payloads of the fragments held, joined in slot order.
pub open spec fn joined(slots: Seq<Option<ChunkView>>) -> Seq<u8>
    decreases slots.len(),
{
    if slots.len() == 0 {
        Seq::empty()
    } else {
        match slots.last() {
            Some(chunk) => joined(slots.drop_last()) + chunk.payload,
            None => joined(slots.drop_last()),
        }
    }
}

impl ChunkSetView {
    /// The set made for a message of `count` fragments whose first fragment
    /// arrived at `arrival`: every slot is empty.
    pub open spec fn new(count: u8, arrival: Timestamp) -> ChunkSetView {
        ChunkSetView {
            slots: Seq::new(count as nat, |i: int| None::<ChunkView>),
            rcv_count: 0,
            first_arrival: arrival,
        }
    }

    /// The count of fragments taken in is the number of filled slots.
    pub open spec fn wf(self) -> bool {
        self.rcv_count == filled(self.slots)
    }

    /// No fragment is missing.
    pub open spec fn is_complete(self) -> bool {
        self.rcv_count == self.slots.len()
    }

    /// Whether `number`, counted from 1, names a slot of the set.
    pub open spec fn has_slot(self, number: u8) -> bool {
        1 <= number <= self.slots.len()
    }

    /// The set after `chunk` was offered to it, and what the offer came to.
    ///
    /// A sequence number that names no slot is an error. A fragment for a
    /// slot that is filled already is dropped: the set stays as it is and
    /// nothing is reported. A fragment for an empty slot is installed.
    pub open spec fn accept(self, chunk: ChunkView) -> (ChunkSetView, Result<ChunkSetState, Error>) {
        let index = chunk.sequence_number - 1;
        if !self.has_slot(chunk.sequence_number) {
            (self, Err(Error::SequenceOutOfRange))
        } else if self.slots[index] is Some {
            (self, Ok(ChunkSetState::Partial))
        } else {
            let taken = ChunkSetView {
                slots: self.slots.update(index, Some(chunk)),
                rcv_count: self.rcv_count + 1,
                first_arrival: self.first_arrival,
            };
            (
                taken,
                Ok(
                    if taken.is_complete() {
                        ChunkSetState::Complete
                    } else {
                        ChunkSetState::Partial
                    },
                ),
            )
        }
    }

    /// The instant at which the set expires: its first arrival and the time
    /// to live, in nanoseconds since the epoch.
    pub open spec fn deadline(self) -> int {
        self.first_arrival.nanos() + TTL_NANOS
    }

    /// The nanoseconds left at `now` until the set expires; negative once
    /// the deadline has passed.
    pub open spec fn expires_in(self, now: Timestamp) -> int {
        self.deadline() - now.nanos()
    }

    /// The message's bytes: the payloads in slot order.
    pub open spec fn payload(self) -> Seq<u8> {
        joined(self.slots)
    }

    /// The set with its fragments taken out.
    pub open spec fn drained(self) -> ChunkSetView {
        ChunkSetView { slots: Seq::empty(), rcv_count: 0, first_arrival: self.first_arrival }
    }
}

/// A set without a fragment has no filled slot.
pub proof fn lemma_new_set_is_empty(count: u8, arrival: Timestamp)
    ensures
        ChunkSetView::new(count, arrival).wf(),
    decreases count,
{
    let slots = ChunkSetView::new(count, arrival).slots;
    if count > 0 {
        lemma_new_set_is_empty((count - 1) as u8, arrival);
        assert(slots.drop_last() =~= ChunkSetView::new((count - 1) as u8, arrival).slots);
    }
}

/// No more slots are filled than there are.
pub proof fn lemma_filled_at_most_len(slots: Seq<Option<ChunkView>>)
    ensures
        filled(slots) <= slots.len(),
    decreases slots.len(),
{
    if slots.len() > 0 {
        lemma_filled_at_most_len(slots.drop_last());
    }
}

/// Filling an empty slot raises the number of filled slots by one.
pub proof fn lemma_filled_after_install(slots: Seq<Option<ChunkView>>, index: int, chunk: ChunkView)
    requires
        0 <= index < slots.len(),
        slots[index] is None,
    ensures
        filled(slots.update(index, Some(chunk))) == filled(slots) + 1,
    decreases slots.len(),
{
    let updated = slots.update(index, Some(chunk));
    if index == slots.len() - 1 {
        assert(updated.drop_last() =~= slots.drop_last());
    } else {
        lemma_filled_after_install(slots.drop_last(), index, chunk);
        assert(updated.drop_last() =~= slots.drop_last().update(index, Some(chunk)));
    }
}

/// Where as many slots are filled as there are, none is empty.
pub proof fn lemma_all_filled(slots: Seq<Option<ChunkView>>)
    requires
        filled(slots) == slots.len(),
    ensures
        forall|i: int| 0 <= i < slots.len() ==> (#[trigger] slots[i]) is Some,
    decreases slots.len(),
{
    if slots.len() > 0 {
        lemma_filled_at_most_len(slots.drop_last());
        lemma_all_filled(slots.drop_last());
        assert forall|i: int| 0 <= i < slots.len() implies (#[trigger] slots[i]) is Some by {
            if i < slots.len() - 1 {
                assert(slots.drop_last()[i] is Some);
            }
        }
    }
}

/// A fragment offered a second time changes nothing: after any offer that
/// was not refused, the same fragment is dropped without an error, and the
/// set, its count of fragments included, stays as it is.
pub proof fn lemma_duplicate_is_dropped(set: ChunkSetView, chunk: ChunkView)
    requires
        set.accept(chunk).1 is Ok,
    ensures
        set.accept(chunk).0.accept(chunk) == (
            set.accept(chunk).0,
            Ok::<ChunkSetState, Error>(ChunkSetState::Partial),
        ),
        set.accept(chunk).0.accept(chunk).0.rcv_count == set.accept(chunk).0.rcv_count,
{
}

/// Offering a fragment keeps the count of fragments equal to the number of
/// filled slots, and never lets it pass the number of slots.
pub proof fn lemma_accept_keeps_wf(set: ChunkSetView, chunk: ChunkView)
    requires
        set.wf(),
    ensures
        set.accept(chunk).0.wf(),
        set.accept(chunk).0.rcv_count <= set.slots.len(),
        set.accept(chunk).0.slots.len() == set.slots.len(),
{
    lemma_filled_at_most_len(set.slots);
    let index = chunk.sequence_number - 1;
    if set.has_slot(chunk.sequence_number) && set.slots[index] is None {
        lemma_filled_after_install(set.slots, index, chunk);
        lemma_filled_at_most_len(set.slots.update(index, Some(chunk)));
    }
}

impl View for ChunkSet {
    type V = ChunkSetView;

    closed spec fn view(&self) -> ChunkSetView {
        ChunkSetView {
            slots: self.slots@.map_values(|slot: Option<Chunk>| slot_view(slot)),
            rcv_count: self.rcv_count as nat,
            first_arrival: self.first_arrival,
        }
    }
}

impl ChunkSet {
    /// The count of fragments taken in is the number of filled slots.
    pub open spec fn wf(&self) -> bool {
        self@.wf()
    }

    /// Makes the set for the message that `chunk` belongs to: one empty slot
    /// for each fragment that `chunk` announces. The fragment itself is not
    /// taken in.
    pub fn new(chunk: &Chunk) -> (set: ChunkSet)
        ensures
            set.wf(),
            set@ == ChunkSetView::new(chunk.sequence_count, chunk.arrival),
    {
        let count: usize = chunk.sequence_count as usize;
        let mut slots: Vec<Option<Chunk>> = Vec::with_capacity(count);
        while slots.len() < count
            invariant
                slots.len() <= count,
                forall|i: int| 0 <= i < slots.len() ==> slots@[i] is None,
            decreases count - slots.len(),
        {
            slots.push(None);
        }
        let set = ChunkSet { slots, rcv_count: 0, first_arrival: chunk.arrival };
        proof {
            assert(set@.slots =~= ChunkSetView::new(chunk.sequence_count, chunk.arrival).slots);
            lemma_new_set_is_empty(chunk.sequence_count, chunk.arrival);
        }
        set
    }

    /// The number of fragments that make up the message.
    pub fn len(&self) -> (count: usize)
        ensures
            count == self@.slots.len(),
    {
        self.slots.len()
    }

    /// The number of fragments taken in so far.
    pub fn rcv_count(&self) -> (count: usize)
        ensures
            count == self@.rcv_count,
    {
        self.rcv_count
    }

    /// The arrival of the fragment that the set was made for.
    pub fn first_arrival(&self) -> (arrival: Timestamp)
        ensures
            arrival == self@.first_arrival,
    {
        self.first_arrival
    }

    /// Whether no fragment is missing.
    pub fn is_complete(&self) -> (complete: bool)
        ensures
            complete == self@.is_complete(),
    {
        self.rcv_count == self.slots.len()
    }

    /// Offers a fragment to the set.
    ///
    /// The fragment goes to the slot that its sequence number names, counted
    /// from 1. A number that names no slot is refused. A fragment for a slot
    /// that is filled already is dropped without an error.
    pub fn accept(&mut self, chunk: Chunk) -> (outcome: Result<ChunkSetState, Error>)
        requires
            old(self).wf(),
        ensures
            final(self).wf(),
            final(self)@ == old(self)@.accept(chunk@).0,
            outcome == old(self)@.accept(chunk@).1,
    {
        let number: usize = chunk.sequence_number as usize;
        if number == 0 || number > self.slots.len() {
            return Err(Error::SequenceOutOfRange);
        }
        let index: usize = number - 1;
        if self.slots[index].is_some() {
            return Ok(ChunkSetState::Partial);
        }
        proof {
            lemma_accept_keeps_wf(self@, chunk@);
            assert(self.slots@.update(index as int, Some(chunk)).map_values(
                |slot: Option<Chunk>| slot_view(slot),
            ) =~= self@.slots.update(index as int, Some(chunk@)));
        }
        self.slots.set(index, Some(chunk));
        self.rcv_count = self.rcv_count + 1;
        if self.rcv_count == self.slots.len() {
            Ok(ChunkSetState::Complete)
        } else {
            Ok(ChunkSetState::Partial)
        }
    }

    /// The nanoseconds left at `now` until the set expires: its first
    /// arrival and the time to live, less `now`. Negative once the deadline
    /// has passed.
    pub fn expires_in_at(&self, now: &Timestamp) -> (remaining: i128)
        ensures
            remaining == self@.expires_in(*now),
    {
        self.first_arrival.as_nanos() + TTL_NANOS - now.as_nanos()
    }

    /// The nanoseconds left until the set expires, by the current time.
    pub fn expires_in(&self) -> (remaining: i128)
        ensures
            exists|now: Timestamp| remaining == #[trigger] self@.expires_in(now),
    {
        let now = read_clock();
        self.expires_in_at(&now)
    }

    /// Joins the payloads in slot order and unpacks the result as a whole
    /// message. The fragments leave the set.
    pub fn unpack(&mut self) -> (unpacked: Result<String, Error>)
        requires
            old(self).wf(),
            old(self)@.is_complete(),
        ensures
            text_view(unpacked) == complete_text(old(self)@.payload()),
            final(self).wf(),
            final(self)@ == old(self)@.drained(),
    {
        let mut message: Vec<u8> = Vec::new();
        let ghost slots = self@.slots;
        let mut i: usize = 0;
        while i < self.slots.len()
            invariant
                i <= self.slots.len(),
                slots == self@.slots,
                *self == *old(self),
                message@ == joined(slots.take(i as int)),
            decreases self.slots.len() - i,
        {
            proof {
                assert(slots.take(i + 1).drop_last() =~= slots.take(i as int));
                assert(slots.take(i + 1).last() == slots[i as int]);
            }
            match &self.slots[i] {
                Some(chunk) => {
                    message.extend_from_slice(chunk.payload.as_slice());
                },
                None => {},
            }
            i = i + 1;
        }
        proof {
            assert(slots.take(i as int) =~= slots);
        }
        self.slots = Vec::new();
        self.rcv_count = 0;
        assert(self@.slots =~= Seq::<Option<ChunkView>>::empty());
        unpack_complete(message.as_slice())
    }
}

} // verus!
