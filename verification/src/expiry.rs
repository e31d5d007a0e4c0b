//! What the reaper does to messages whose time has run out.
//!
//! The eviction queue is served first in, first out, so the reaper sees a
//! deadline only when it stands at the head. Where fragments arrive in the
//! order of their arrival times, the queue is in the order of its deadlines,
//! and no expired message outlives the next visit of the reaper.

use vstd::prelude::*;
use crate::accumulator::{has_record, lemma_reap_keeps_wf, AccumulatorView};
use crate::chunk::ChunkView;
use crate::chunk_set::{ChunkSetState, ChunkSetView};
use crate::clock::{Timestamp, TTL_NANOS};
use crate::error::Error;

verus! {

/// Serving the reaper removes messages and records, and adds none: what
/// the table holds afterwards it held before, unchanged.
pub proof fn lemma_reap_only_removes(state: AccumulatorView, now: Timestamp)
    ensures
        forall|id: [u8; 8]| #[trigger]
            state.reap(now).sets.contains_key(id) ==> state.sets.contains_key(id)
                && state.reap(now).sets[id] == state.sets[id],
        state.reap(now).reaper.queue.len() <= state.reaper.queue.len(),
    decreases state.reaper.queue.len(),
{
    if state.due(now) {
        lemma_reap_only_removes(state.evict_head(now), now);
    }
}

/// Serving the reaper keeps the eviction queue in the order of its
/// deadlines.
pub proof fn lemma_reap_keeps_order(state: AccumulatorView, now: Timestamp)
    requires
        state.reaper.sorted(),
    ensures
        state.reap(now).reaper.sorted(),
        state.reap(now).reaper.queue.len() > 0 ==> state.reaper.queue.len() > 0
            && state.reap(now).reaper.queue.last() == state.reaper.queue.last(),
    decreases state.reaper.queue.len(),
{
    if state.due(now) {
        let next = state.evict_head(now);
        assert forall|i: int, j: int| 0 <= i <= j < next.reaper.queue.len() implies next.reaper.queue[i].deadline
            <= next.reaper.queue[j].deadline by {
            assert(state.reaper.queue[i + 1].deadline <= state.reaper.queue[j + 1].deadline);
        }
        lemma_reap_keeps_order(next, now);
    }
}

/// **Expiry.** A message is gone from the table after the first visit of
/// the reaper at which its record, and every record that stands before it
/// in the eviction queue, has come due.
pub proof fn lemma_reap_evicts_what_is_due(state: AccumulatorView, now: Timestamp, place: int)
    requires
        state.reaper.running,
        0 <= place < state.reaper.queue.len(),
        forall|j: int| 0 <= j <= place ==> (#[trigger] state.reaper.queue[j]).deadline <= now.nanos(),
    ensures
        !state.reap(now).sets.contains_key(state.reaper.queue[place].id),
        state.reap(now).reaper.queue.len() + place < state.reaper.queue.len(),
    decreases place,
{
    assert(state.reaper.queue[0].deadline <= now.nanos());
    assert(state.due(now));
    let next = state.evict_head(now);
    if place == 0 {
        lemma_reap_only_removes(next, now);
    } else {
        assert forall|j: int| 0 <= j <= place - 1 implies (#[trigger] next.reaper.queue[j]).deadline
            <= now.nanos() by {
            assert(next.reaper.queue[j] == state.reaper.queue[j + 1]);
        }
        assert(next.reaper.queue[place - 1] == state.reaper.queue[place]);
        lemma_reap_evicts_what_is_due(next, now, place - 1);
    }
}

/// **Expiry in order.** Where the eviction queue is in the order of its
/// deadlines,
/// a visit of the reaper at `now` leaves no message in the table that has
/// expired by then.
pub proof fn lemma_reap_evicts_expired(state: AccumulatorView, now: Timestamp)
    requires
        state.wf(),
        state.reaper.running,
        state.reaper.sorted(),
    ensures
        forall|id: [u8; 8]| #[trigger]
            state.reap(now).sets.contains_key(id) ==> state.reap(now).sets[id].deadline()
                > now.nanos(),
{
    let reaped = state.reap(now);
    lemma_reap_keeps_wf(state, now);
    lemma_reap_keeps_order(state, now);
    assert forall|id: [u8; 8]| #[trigger] reaped.sets.contains_key(id) implies reaped.sets[id].deadline()
        > now.nanos() by {
        let queue = reaped.reaper.queue;
        assert(has_record(queue, id, reaped.sets[id].deadline()));
        let j = choose|j: int|
            0 <= j < queue.len() && (#[trigger] queue[j]).id == id && queue[j].deadline
                == reaped.sets[id].deadline();
        assert(queue[0].deadline <= queue[j].deadline);
        assert(!reaped.due(now));
    }
}

/// What a fragment comes to that meets no set of its message: the set made
/// for it takes it in, and is handed out if that completes it.
pub open spec fn fresh_outcome(chunk: ChunkView) -> Result<Option<ChunkSetView>, Error> {
    let (set, outcome) = ChunkSetView::new(chunk.sequence_count, chunk.arrival).accept(chunk);
    match outcome {
        Ok(ChunkSetState::Complete) => Ok(Some(set)),
        Ok(ChunkSetState::Partial) => Ok(None),
        Err(e) => Err(e),
    }
}

/// **A late fragment starts anew.** A fragment that is accepted when the
/// set of its message has expired does not complete that set: the set is
/// evicted first, and the fragment is treated as the first of its message.
/// Where it leaves the message waiting, the table holds a new set with this
/// fragment alone.
///
/// This is stated of an eviction queue in the order of its deadlines.
pub proof fn lemma_late_fragment_starts_anew(
    state: AccumulatorView,
    chunk: ChunkView,
    now: Timestamp,
)
    requires
        state.wf(),
        state.reaper.running,
        state.reaper.sorted(),
        state.sets.contains_key(chunk.id),
        state.sets[chunk.id].deadline() <= now.nanos(),
    ensures
        !state.reap(now).sets.contains_key(chunk.id),
        state.accept(chunk, now).1 == fresh_outcome(chunk),
        state.accept(chunk, now).1 == Ok::<Option<ChunkSetView>, Error>(None) ==> {
            &&& state.accept(chunk, now).0.sets.contains_key(chunk.id)
            &&& state.accept(chunk, now).0.sets[chunk.id] == ChunkSetView::new(
                chunk.sequence_count,
                chunk.arrival,
            ).accept(chunk).0
            &&& state.accept(chunk, now).0.sets[chunk.id].rcv_count == 1
        },
{
    lemma_reap_evicts_expired(state, now);
    lemma_reap_only_removes(state, now);
    lemma_reap_keeps_wf(state, now);
}

/// Accepting a fragment keeps the eviction queue in the order of its
/// deadlines, unless the message that the fragment starts expires before
/// the record at the tail of the queue.
pub proof fn lemma_accept_keeps_order(state: AccumulatorView, chunk: ChunkView, now: Timestamp)
    requires
        state.reaper.sorted(),
        state.reaper.queue.len() > 0 ==> state.reaper.queue.last().deadline
            <= chunk.arrival.nanos() + TTL_NANOS,
    ensures
        state.accept(chunk, now).0.reaper.sorted(),
{
    lemma_reap_keeps_order(state, now);
    let reaped = state.reap(now);
    let next = state.accept(chunk, now).0;
    assert forall|i: int, j: int| 0 <= i <= j < next.reaper.queue.len() implies next.reaper.queue[i].deadline
        <= next.reaper.queue[j].deadline by {
        if next.reaper.queue.len() == reaped.reaper.queue.len() + 1 {
            if j < reaped.reaper.queue.len() {
                assert(reaped.reaper.queue[i].deadline <= reaped.reaper.queue[j].deadline);
            } else if i < reaped.reaper.queue.len() {
                assert(reaped.reaper.queue[i].deadline <= reaped.reaper.queue.last().deadline);
            }
        } else {
            assert(next.reaper.queue =~= reaped.reaper.queue);
        }
    }
}

} // verus!
