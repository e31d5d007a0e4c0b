//! The accumulator: the table of messages that still wait for fragments,
//! and the reaper that evicts those whose time has run out.
//!
//! The accumulator runs in whoever calls it. `accept` first serves the
//! reaper every timeout that is due by then, so a fragment that comes after
//! its message has expired never completes the old set. Where the reaper is
//! driven from elsewhere, `offer_at` takes a fragment in and `reap_at`
//! serves the reaper, each on its own.

use vstd::prelude::*;
use std::collections::HashMap;
use crate::chunk::{Chunk, ChunkView};
use crate::chunk_set::{
    lemma_accept_keeps_wf, lemma_new_set_is_empty, ChunkSet, ChunkSetState, ChunkSetView,
};
use crate::clock::{read_clock, Timestamp};
use crate::error::Error;
use crate::reaper::{EvictionEntry, Reaper, ReaperAction, ReaperEvent, ReaperView, Signal};

verus! {

/// The accumulator's state, as mathematical values.
#[verifier::ext_equal]
pub struct AccumulatorView {
    /// The messages that wait for fragments, by message id.
    pub sets: Map<[u8; 8], ChunkSetView>,
    /// The reaper, with the evictions that are pending.
    pub reaper: ReaperView,
}

/// Whether the queue holds a record for `id` that expires at `deadline`.
pub open spec fn has_record(queue: Seq<EvictionEntry>, id: [u8; 8], deadline: int) -> bool {
    exists|j: int|
        0 <= j < queue.len() && (#[trigger] queue[j]).id == id && queue[j].deadline == deadline
}

/// Whether `set` can stand in the table under `id`: its count is right, a
/// fragment is still missing, and it holds fragments of `id` only.
pub open spec fn in_flight(set: ChunkSetView, id: [u8; 8]) -> bool {
    &&& set.wf()
    &&& set.rcv_count < set.slots.len()
    &&& forall|i: int|
        0 <= i < set.slots.len() ==> ((#[trigger] set.slots[i]) matches Some(chunk) ==> chunk.id
            == id)
}

impl AccumulatorView {
    /// An accumulator that holds nothing, with its reaper running.
    pub open spec fn new() -> AccumulatorView {
        AccumulatorView { sets: Map::empty(), reaper: ReaperView::new() }
    }

    /// Every set of the table is in flight under its id, and, while the
    /// reaper runs, has a record in the eviction queue with its own deadline.
    pub open spec fn wf(self) -> bool {
        &&& forall|id: [u8; 8]| #[trigger]
            self.sets.contains_key(id) ==> in_flight(self.sets[id], id)
        &&& self.reaper.running ==> forall|id: [u8; 8]| #[trigger]
            self.sets.contains_key(id) ==> has_record(
                self.reaper.queue,
                id,
                self.sets[id].deadline(),
            )
    }

    /// Whether the reaper's timer has fired by `now`: the reaper runs, and
    /// the deadline at the head of its queue has come.
    pub open spec fn due(self, now: Timestamp) -> bool {
        self.reaper.running && self.reaper.timeout(now) == Some(0int)
    }

    /// The state after the reaper has served one timeout: the head of the
    /// queue is gone, and so is the set of its id, if there was one.
    pub open spec fn evict_head(self, now: Timestamp) -> AccumulatorView {
        let (reaper, action) = self.reaper.step(ReaperEvent::Timeout, now);
        match action {
            ReaperAction::Evict(id) => AccumulatorView { sets: self.sets.remove(id), reaper },
            _ => AccumulatorView { sets: self.sets, reaper },
        }
    }

    /// The state after the reaper has served every timeout that is due by
    /// `now`.
    pub open spec fn reap(self, now: Timestamp) -> AccumulatorView
        decreases self.reaper.queue.len(),
    {
        if self.due(now) {
            self.evict_head(now).reap(now)
        } else {
            self
        }
    }

    /// The state after `chunk` was offered at `now`, and what came of it.
    ///
    /// A fragment of a message in the table goes to that message's set: a
    /// set that it completes leaves the table and is handed out. A fragment
    /// of a message that is not in the table gets a new set: one that it
    /// completes at once is handed out and never stored; any other is
    /// stored, and the reaper is told when it expires. Where the reaper has
    /// quit, the set is stored all the same and the failure is reported.
    pub open spec fn offer(self, chunk: ChunkView, now: Timestamp) -> (
        AccumulatorView,
        Result<Option<ChunkSetView>, Error>,
    ) {
        let id = chunk.id;
        if self.sets.contains_key(id) {
            let (set, outcome) = self.sets[id].accept(chunk);
            match outcome {
                Ok(ChunkSetState::Complete) => (
                    AccumulatorView { sets: self.sets.remove(id), reaper: self.reaper },
                    Ok(Some(set)),
                ),
                Ok(ChunkSetState::Partial) => (
                    AccumulatorView { sets: self.sets.insert(id, set), reaper: self.reaper },
                    Ok(None),
                ),
                Err(e) => (self, Err(e)),
            }
        } else {
            let (set, outcome) = ChunkSetView::new(chunk.sequence_count, chunk.arrival).accept(
                chunk,
            );
            match outcome {
                Ok(ChunkSetState::Complete) => (self, Ok(Some(set))),
                Ok(ChunkSetState::Partial) => if self.reaper.running {
                    (
                        AccumulatorView {
                            sets: self.sets.insert(id, set),
                            reaper: self.reaper.step(
                                ReaperEvent::Signal(
                                    Signal::EvictionEntry(id, set.expires_in(now) as i128),
                                ),
                                now,
                            ).0,
                        },
                        Ok(None),
                    )
                } else {
                    (
                        AccumulatorView { sets: self.sets.insert(id, set), reaper: self.reaper },
                        Err(Error::ReaperUnavailable),
                    )
                },
                Err(e) => (self, Err(e)),
            }
        }
    }

    /// The state after `chunk` was accepted at `now`, and what came of it:
    /// the reaper serves what is due, then the fragment is offered.
    pub open spec fn accept(self, chunk: ChunkView, now: Timestamp) -> (
        AccumulatorView,
        Result<Option<ChunkSetView>, Error>,
    ) {
        self.reap(now).offer(chunk, now)
    }

    /// The state after the reaper was told to quit: the table and the
    /// queue stay as they are, and the reaper runs no more.
    pub open spec fn quit(self) -> AccumulatorView {
        AccumulatorView {
            sets: self.sets,
            reaper: ReaperView { queue: self.reaper.queue, running: false },
        }
    }
}

/// An outcome with the set that was handed out taken by its view.
pub open spec fn outcome_view(outcome: Result<Option<ChunkSet>, Error>) -> Result<
    Option<ChunkSetView>,
    Error,
> {
    match outcome {
        Ok(Some(set)) => Ok(Some(set@)),
        Ok(None) => Ok(None),
        Err(e) => Err(e),
    }
}

/// A timeout of the reaper keeps the accumulator well formed.
pub proof fn lemma_evict_head_keeps_wf(state: AccumulatorView, now: Timestamp)
    requires
        state.wf(),
    ensures
        state.evict_head(now).wf(),
{
    let next = state.evict_head(now);
    if state.reaper.running && state.reaper.queue.len() > 0 {
        let head = state.reaper.queue[0];
        assert forall|id: [u8; 8]| #[trigger] next.sets.contains_key(id) implies has_record(
            next.reaper.queue,
            id,
            next.sets[id].deadline(),
        ) by {
            assert(state.sets.contains_key(id));
            let j = choose|j: int|
                0 <= j < state.reaper.queue.len() && (#[trigger] state.reaper.queue[j]).id == id
                    && state.reaper.queue[j].deadline == state.sets[id].deadline();
            assert(next.reaper.queue[j - 1] == state.reaper.queue[j]);
        }
    }
}

/// Serving the timeouts that are due keeps the accumulator well formed, and
/// neither starts nor ends the reaper.
pub proof fn lemma_reap_keeps_wf(state: AccumulatorView, now: Timestamp)
    requires
        state.wf(),
    ensures
        state.reap(now).wf(),
        state.reap(now).reaper.running == state.reaper.running,
        !state.reap(now).due(now),
    decreases state.reaper.queue.len(),
{
    if state.due(now) {
        lemma_evict_head_keeps_wf(state, now);
        lemma_reap_keeps_wf(state.evict_head(now), now);
    }
}

/// Offering a fragment keeps the accumulator well formed, and a set that is
/// handed out is well formed and complete.
pub proof fn lemma_offer_keeps_wf(state: AccumulatorView, chunk: ChunkView, now: Timestamp)
    requires
        state.wf(),
    ensures
        state.offer(chunk, now).0.wf(),
        state.offer(chunk, now).0.reaper.running == state.reaper.running,
        state.offer(chunk, now).1 matches Ok(Some(set)) ==> set.wf() && set.is_complete(),
{
    let id = chunk.id;
    let (next, outcome) = state.offer(chunk, now);
    let old_set = if state.sets.contains_key(id) {
        state.sets[id]
    } else {
        ChunkSetView::new(chunk.sequence_count, chunk.arrival)
    };
    lemma_new_set_is_empty(chunk.sequence_count, chunk.arrival);
    assert(in_flight(old_set, id) || !state.sets.contains_key(id));
    lemma_accept_keeps_wf(old_set, chunk);
    let (set, state_of_set) = old_set.accept(chunk);
    if state_of_set == Ok::<ChunkSetState, Error>(ChunkSetState::Partial) {
        assert(in_flight(set, id)) by {
            assert forall|i: int| 0 <= i < set.slots.len() implies ((#[trigger] set.slots[i])
                matches Some(held) ==> held.id == id) by {
                if old_set.slots[i] is Some {
                    assert(state.sets.contains_key(id));
                }
            }
        }
        assert forall|other: [u8; 8]| #[trigger] next.sets.contains_key(other) implies in_flight(
            next.sets[other],
            other,
        ) by {
            if other != id {
                assert(state.sets.contains_key(other));
            }
        }
        if next.reaper.running {
            assert forall|other: [u8; 8]| #[trigger]
                next.sets.contains_key(other) implies has_record(
                next.reaper.queue,
                other,
                next.sets[other].deadline(),
            ) by {
                if state.sets.contains_key(other) {
                    let j = choose|j: int|
                        0 <= j < state.reaper.queue.len() && (
                        #[trigger] state.reaper.queue[j]).id == other
                            && state.reaper.queue[j].deadline == state.sets[other].deadline();
                    assert(next.reaper.queue[j] == state.reaper.queue[j]);
                } else {
                    assert(other == id);
                    let j = state.reaper.queue.len() as int;
                    assert(next.reaper.queue[j].id == id);
                    assert(next.reaper.queue[j].deadline == set.deadline());
                }
            }
        }
    } else if state_of_set == Ok::<ChunkSetState, Error>(ChunkSetState::Complete) {
        assert forall|other: [u8; 8]| #[trigger] next.sets.contains_key(other) implies in_flight(
            next.sets[other],
            other,
        ) by {
            assert(state.sets.contains_key(other));
        }
        if next.reaper.running {
            assert forall|other: [u8; 8]| #[trigger]
                next.sets.contains_key(other) implies has_record(
                next.reaper.queue,
                other,
                next.sets[other].deadline(),
            ) by {
                assert(state.sets.contains_key(other));
            }
        }
    }
}

/// Accepting a fragment keeps the accumulator well formed, and a set that
/// is handed out is well formed and complete.
pub proof fn lemma_accept_keeps_accumulator_wf(
    state: AccumulatorView,
    chunk: ChunkView,
    now: Timestamp,
)
    requires
        state.wf(),
    ensures
        state.accept(chunk, now).0.wf(),
        state.accept(chunk, now).0.reaper.running == state.reaper.running,
        state.accept(chunk, now).1 matches Ok(Some(set)) ==> set.wf() && set.is_complete(),
{
    lemma_reap_keeps_wf(state, now);
    lemma_offer_keeps_wf(state.reap(now), chunk, now);
}

/// The key under which the table stores the message `id`: the eight bytes
/// read as one number.
pub closed spec fn key_of(id: [u8; 8]) -> u64 {
    vstd::bytes::spec_u64_from_le_bytes(id@)
}

/// Two ids with one key are one id.
pub proof fn lemma_key_tells_ids_apart(a: [u8; 8], b: [u8; 8])
    requires
        key_of(a) == key_of(b),
    ensures
        a == b,
{
    vstd::bytes::lemma_auto_spec_u64_to_from_le_bytes();
    assert(vstd::bytes::spec_u64_to_le_bytes(vstd::bytes::spec_u64_from_le_bytes(a@)) == a@);
    assert(vstd::bytes::spec_u64_to_le_bytes(vstd::bytes::spec_u64_from_le_bytes(b@)) == b@);
    assert(a =~= b);
}

/// The table by message id: what a table that is stored by key holds.
pub closed spec fn table_view(sets: Map<u64, ChunkSet>) -> Map<[u8; 8], ChunkSetView> {
    Map::new(|id: [u8; 8]| sets.contains_key(key_of(id)), |id: [u8; 8]| sets[key_of(id)]@)
}

proof fn lemma_table_insert(sets: Map<u64, ChunkSet>, id: [u8; 8], set: ChunkSet)
    ensures
        table_view(sets.insert(key_of(id), set)) == table_view(sets).insert(id, set@),
{
    assert forall|other: [u8; 8]| other != id implies key_of(other) != key_of(id) by {
        if key_of(other) == key_of(id) {
            lemma_key_tells_ids_apart(other, id);
        }
    }
    assert(table_view(sets.insert(key_of(id), set)) =~= table_view(sets).insert(id, set@));
}

proof fn lemma_table_remove(sets: Map<u64, ChunkSet>, id: [u8; 8])
    ensures
        table_view(sets.remove(key_of(id))) == table_view(sets).remove(id),
{
    assert forall|other: [u8; 8]| other != id implies key_of(other) != key_of(id) by {
        if key_of(other) == key_of(id) {
            lemma_key_tells_ids_apart(other, id);
        }
    }
    assert(table_view(sets.remove(key_of(id))) =~= table_view(sets).remove(id));
}

/// The key under which the table stores the message `id`.
fn key(id: &[u8; 8]) -> (k: u64)
    ensures
        k == key_of(*id),
{
    vstd::bytes::u64_from_le_bytes(id.as_slice())
}

/// The table of messages that wait for fragments, and their reaper.
#[derive(Debug)]
pub struct ChunkAccumulator {
    sets: HashMap<u64, ChunkSet>,
    reaper: Reaper,
}

impl View for ChunkAccumulator {
    type V = AccumulatorView;

    closed spec fn view(&self) -> AccumulatorView {
        AccumulatorView { sets: table_view(self.sets@), reaper: self.reaper@ }
    }
}

impl ChunkAccumulator {
    /// The accumulator's state is well formed, and so is every set that the
    /// table stores.
    pub closed spec fn wf(&self) -> bool {
        &&& self@.wf()
        &&& forall|k: u64| #[trigger] self.sets@.contains_key(k) ==> self.sets@[k].wf()
    }

    /// A well-formed accumulator has a well-formed state.
    pub proof fn lemma_wf(&self)
        requires
            self.wf(),
        ensures
            self@.wf(),
    {
    }

    /// An accumulator that holds nothing, with its reaper running.
    pub fn new() -> (accumulator: ChunkAccumulator)
        ensures
            accumulator.wf(),
            accumulator@ == AccumulatorView::new(),
    {
        let accumulator = ChunkAccumulator { sets: HashMap::new(), reaper: Reaper::new() };
        assert(accumulator@.sets =~= Map::<[u8; 8], ChunkSetView>::empty());
        accumulator
    }

    /// Whether the message `id` waits for fragments.
    pub fn holds(&self, id: &[u8; 8]) -> (waiting: bool)
        ensures
            waiting == self@.sets.contains_key(*id),
    {
        let k = key(id);
        self.sets.contains_key(&k)
    }

    /// Whether the reaper still runs.
    pub fn is_running(&self) -> (running: bool)
        ensures
            running == self@.reaper.running,
    {
        self.reaper.is_running()
    }

    /// How many nanoseconds the reaper is to wait at `now` before its timer
    /// fires, or `None` where nothing is pending.
    pub fn timeout_at(&self, now: &Timestamp) -> (wait: Option<i128>)
        ensures
            wait matches Some(nanos) ==> self@.reaper.timeout(*now) == Some(nanos as int),
            wait is None ==> self@.reaper.timeout(*now) is None,
    {
        self.reaper.timeout(now)
    }

    /// Serves the reaper every timeout that is due by `now`: each takes the
    /// head off the eviction queue and its message, if it still waits, out
    /// of the table.
    pub fn reap_at(&mut self, now: &Timestamp)
        requires
            old(self).wf(),
        ensures
            final(self).wf(),
            final(self)@ == old(self)@.reap(*now),
    {
        loop
            invariant
                self.wf(),
                self@.reap(*now) == old(self)@.reap(*now),
            ensures
                self.wf(),
                self@ == old(self)@.reap(*now),
            decreases self@.reaper.queue.len(),
        {
            if !self.reaper.is_running() {
                break ;
            }
            let due: bool = match self.reaper.timeout(now) {
                Some(nanos) => nanos == 0,
                None => false,
            };
            if !due {
                break ;
            }
            let ghost before = self@;
            proof {
                lemma_evict_head_keeps_wf(before, *now);
            }
            match self.reaper.step(ReaperEvent::Timeout, now) {
                ReaperAction::Evict(id) => {
                    let k = key(&id);
                    proof {
                        lemma_table_remove(self.sets@, id);
                    }
                    self.sets.remove(&k);
                },
                _ => {},
            }
            assert(self@ == before.evict_head(*now));
        }
    }

    /// Serves the reaper every timeout that is due by the current time.
    pub fn reap(&mut self)
        requires
            old(self).wf(),
        ensures
            final(self).wf(),
            exists|now: Timestamp| final(self)@ == #[trigger] old(self)@.reap(now),
    {
        let now = read_clock();
        self.reap_at(&now);
    }

    /// Offers a fragment to the table at `now`, without serving the reaper
    /// first.
    ///
    /// A fragment of a message in the table goes to that message's set, and
    /// a set that it completes leaves the table and is handed out. A
    /// fragment of a message that is not in the table gets a new set: one
    /// that it completes at once is handed out and never stored; any other
    /// is stored first, and then the reaper is told when it expires.
    pub fn offer_at(&mut self, chunk: Chunk, now: &Timestamp) -> (outcome: Result<
        Option<ChunkSet>,
        Error,
    >)
        requires
            old(self).wf(),
        ensures
            final(self).wf(),
            final(self)@ == old(self)@.offer(chunk@, *now).0,
            outcome_view(outcome) == old(self)@.offer(chunk@, *now).1,
            outcome matches Ok(Some(set)) ==> set.wf() && set@.is_complete(),
    {
        let id: [u8; 8] = chunk.id;
        let k = key(&id);
        let ghost before = self@;
        let ghost stored = self.sets@;
        proof {
            lemma_offer_keeps_wf(before, chunk@, *now);
            lemma_table_remove(stored, id);
        }
        match self.sets.remove(&k) {
            Some(found) => {
                let mut set = found;
                let state = set.accept(chunk);
                match state {
                    Ok(ChunkSetState::Complete) => Ok(Some(set)),
                    Ok(ChunkSetState::Partial) => {
                        proof {
                            lemma_table_insert(self.sets@, id, set);
                            assert(self.sets@.insert(k, set) =~= stored.insert(k, set));
                            lemma_table_insert(stored, id, set);
                        }
                        self.sets.insert(k, set);
                        Ok(None)
                    },
                    Err(e) => {
                        proof {
                            assert(self.sets@.insert(k, set) =~= stored.insert(k, set));
                            lemma_table_insert(stored, id, set);
                            assert(table_view(stored).insert(id, set@) =~= table_view(stored));
                        }
                        self.sets.insert(k, set);
                        Err(e)
                    },
                }
            },
            None => {
                let mut set = ChunkSet::new(&chunk);
                let state = set.accept(chunk);
                match state {
                    Ok(ChunkSetState::Complete) => {
                        assert(self.sets@ =~= stored);
                        Ok(Some(set))
                    },
                    Ok(ChunkSetState::Partial) => {
                        let expires_in: i128 = set.expires_in_at(now);
                        proof {
                            assert(self.sets@.insert(k, set) =~= stored.insert(k, set));
                            lemma_table_insert(stored, id, set);
                        }
                        self.sets.insert(k, set);
                        if self.reaper.is_running() {
                            self.reaper.step(
                                ReaperEvent::Signal(Signal::EvictionEntry(id, expires_in)),
                                now,
                            );
                            Ok(None)
                        } else {
                            Err(Error::ReaperUnavailable)
                        }
                    },
                    Err(e) => {
                        assert(self.sets@ =~= stored);
                        Err(e)
                    },
                }
            },
        }
    }

    /// Accepts a fragment at `now`.
    ///
    /// The reaper is first served every timeout that is due by `now`. Then
    /// the fragment goes to the set of its message, which is made if the
    /// table has none. `Some` hands out the set that the fragment has
    /// completed, which has left the table, or was never in it; `None` says
    /// that the message still waits for fragments.
    pub fn accept_at(&mut self, chunk: Chunk, now: &Timestamp) -> (outcome: Result<
        Option<ChunkSet>,
        Error,
    >)
        requires
            old(self).wf(),
        ensures
            final(self).wf(),
            final(self)@ == old(self)@.accept(chunk@, *now).0,
            outcome_view(outcome) == old(self)@.accept(chunk@, *now).1,
            outcome matches Ok(Some(set)) ==> set.wf() && set@.is_complete(),
    {
        self.reap_at(now);
        self.offer_at(chunk, now)
    }

    /// Accepts a fragment at the current time.
    pub fn accept(&mut self, chunk: Chunk) -> (outcome: Result<Option<ChunkSet>, Error>)
        requires
            old(self).wf(),
        ensures
            final(self).wf(),
            exists|now: Timestamp|
                final(self)@ == (#[trigger] old(self)@.accept(chunk@, now)).0 && outcome_view(
                    outcome,
                ) == old(self)@.accept(chunk@, now).1,
            outcome matches Ok(Some(set)) ==> set.wf() && set@.is_complete(),
    {
        let now = read_clock();
        self.accept_at(chunk, &now)
    }

    /// Tells the reaper to quit. The table keeps what it holds; from now on
    /// nothing is evicted, and no eviction can be scheduled.
    pub fn shutdown(&mut self)
        requires
            old(self).wf(),
        ensures
            final(self).wf(),
            final(self)@ == old(self)@.quit(),
    {
        let now = Timestamp { sec: 0, nsec: 0 };
        self.reaper.step(ReaperEvent::Signal(Signal::Quit), &now);
        assert(self@.sets == old(self)@.sets);
        assert(self.sets@ == old(self).sets@);
    }
}

} // verus!
