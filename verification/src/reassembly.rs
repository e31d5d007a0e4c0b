//! What the accumulator does with the fragments of a message, whatever the
//! order in which they come and whatever comes between them.

use vstd::prelude::*;
use crate::accumulator::{
    in_flight, lemma_accept_keeps_accumulator_wf, lemma_offer_keeps_wf, lemma_reap_keeps_wf,
    AccumulatorView,
};
use crate::chunk::ChunkView;
use crate::chunk_set::{
    lemma_accept_keeps_wf, lemma_all_filled, lemma_new_set_is_empty, ChunkSetView,
};
use crate::clock::{Timestamp, TTL_NANOS};
use crate::error::Error;
use crate::reaper::EvictionEntry;

verus! {

/// Every record that the queue holds for `id` expires at `deadline`.
pub open spec fn records_expire_at(queue: Seq<EvictionEntry>, id: [u8; 8], deadline: int) -> bool {
    forall|j: int|
        0 <= j < queue.len() && (#[trigger] queue[j]).id == id ==> queue[j].deadline == deadline
}

/// Whether two states hold the same for the message `id`: both its set, or
/// both none.
pub open spec fn same_for(a: AccumulatorView, b: AccumulatorView, id: [u8; 8]) -> bool {
    &&& a.sets.contains_key(id) == b.sets.contains_key(id)
    &&& a.sets.contains_key(id) ==> a.sets[id] == b.sets[id]
}

/// The reaper spares a message whose records have not come due: serving
/// what is due by `now` leaves the message as it is, and its records too.
pub proof fn lemma_reap_spares(state: AccumulatorView, now: Timestamp, id: [u8; 8], deadline: int)
    requires
        records_expire_at(state.reaper.queue, id, deadline),
        now.nanos() < deadline,
    ensures
        same_for(state.reap(now), state, id),
        records_expire_at(state.reap(now).reaper.queue, id, deadline),
    decreases state.reaper.queue.len(),
{
    if state.due(now) {
        let next = state.evict_head(now);
        let head = state.reaper.queue[0];
        assert(head.id != id);
        assert forall|j: int| 0 <= j < next.reaper.queue.len() && (#[trigger] next.reaper.queue[j]).id
            == id implies next.reaper.queue[j].deadline == deadline by {
            assert(next.reaper.queue[j] == state.reaper.queue[j + 1]);
        }
        lemma_reap_spares(next, now, id, deadline);
    }
}

/// A fragment touches its own message only: offering it leaves every other
/// message as it is, and adds no record for any other message.
pub proof fn lemma_offer_spares_others(
    state: AccumulatorView,
    chunk: ChunkView,
    now: Timestamp,
    id: [u8; 8],
    deadline: int,
)
    requires
        chunk.id != id,
        records_expire_at(state.reaper.queue, id, deadline),
    ensures
        same_for(state.offer(chunk, now).0, state, id),
        records_expire_at(state.offer(chunk, now).0.reaper.queue, id, deadline),
{
    let next = state.offer(chunk, now).0;
    assert forall|j: int| 0 <= j < next.reaper.queue.len() && (#[trigger] next.reaper.queue[j]).id
        == id implies next.reaper.queue[j].deadline == deadline by {
        if j < state.reaper.queue.len() {
            assert(next.reaper.queue[j] == state.reaper.queue[j]);
        }
    }
}

/// Accepting a fragment leaves every message but its own as it is, as long
/// as that message's records have not come due; and the set that is handed
/// out holds fragments of the accepted fragment's message only.
pub proof fn lemma_messages_are_independent(
    state: AccumulatorView,
    chunk: ChunkView,
    now: Timestamp,
    id: [u8; 8],
    deadline: int,
)
    requires
        state.wf(),
        chunk.id != id,
        records_expire_at(state.reaper.queue, id, deadline),
        now.nanos() < deadline,
    ensures
        same_for(state.accept(chunk, now).0, state, id),
        records_expire_at(state.accept(chunk, now).0.reaper.queue, id, deadline),
        state.accept(chunk, now).1 matches Ok(Some(set)) ==> forall|i: int|
            0 <= i < set.slots.len() ==> ((#[trigger] set.slots[i]) matches Some(held) ==> held.id
                == chunk.id),
{
    lemma_reap_spares(state, now, id, deadline);
    lemma_offer_spares_others(state.reap(now), chunk, now, id, deadline);
    lemma_completion_holds_own_fragments(state, chunk, now);
}

/// The set that an accepted fragment completes holds fragments of that
/// fragment's message only.
pub proof fn lemma_completion_holds_own_fragments(
    state: AccumulatorView,
    chunk: ChunkView,
    now: Timestamp,
)
    requires
        state.wf(),
    ensures
        state.accept(chunk, now).1 matches Ok(Some(set)) ==> forall|i: int|
            0 <= i < set.slots.len() ==> ((#[trigger] set.slots[i]) matches Some(held) ==> held.id
                == chunk.id),
{
    lemma_reap_keeps_wf(state, now);
    let reaped = state.reap(now);
    let id = chunk.id;
    if reaped.sets.contains_key(id) {
        assert(in_flight(reaped.sets[id], id));
    }
}

/// **A replay changes nothing.** A fragment whose slot is filled already,
/// accepted while its message waits and has not expired, is dropped: the
/// accept gives nothing, reports no error, and leaves the message's set,
/// its count of fragments included, as it is.
pub proof fn lemma_replay_changes_nothing(
    state: AccumulatorView,
    chunk: ChunkView,
    now: Timestamp,
    deadline: int,
)
    requires
        state.sets.contains_key(chunk.id),
        state.sets[chunk.id].has_slot(chunk.sequence_number),
        state.sets[chunk.id].slots[chunk.sequence_number - 1] is Some,
        records_expire_at(state.reaper.queue, chunk.id, deadline),
        now.nanos() < deadline,
    ensures
        state.accept(chunk, now).1 == Ok::<Option<ChunkSetView>, Error>(None),
        same_for(state.accept(chunk, now).0, state, chunk.id),
{
    lemma_reap_spares(state, now, chunk.id, deadline);
    let reaped = state.reap(now);
    assert(reaped.offer(chunk, now).0.sets =~= reaped.sets);
}

/// **A completed message leaves the table.** When an accepted fragment
/// completes its message, the set is handed out and the table holds nothing
/// of that message any more, so the reaper finds nothing to evict.
pub proof fn lemma_completed_message_leaves_table(
    state: AccumulatorView,
    chunk: ChunkView,
    now: Timestamp,
)
    requires
        state.wf(),
    ensures
        state.accept(chunk, now).1 matches Ok(Some(set)) ==> set.is_complete()
            && !state.accept(chunk, now).0.sets.contains_key(chunk.id),
        state.accept(chunk, now).1 is Err ==> state.accept(chunk, now).1 == Err::<
            Option<ChunkSetView>,
            Error,
        >(Error::SequenceOutOfRange) || state.accept(chunk, now).1 == Err::<
            Option<ChunkSetView>,
            Error,
        >(Error::ReaperUnavailable),
{
    lemma_accept_keeps_accumulator_wf(state, chunk, now);
}

/// Whether `message` is a chunked message in sequence order: between 1 and
/// 255 fragments of one id, each of which announces their number, the
/// fragment at place `i` bearing the sequence number `i + 1`.
pub open spec fn is_message(message: Seq<ChunkView>) -> bool {
    &&& 1 <= message.len() <= 255
    &&& forall|i: int|
        0 <= i < message.len() ==> {
            &&& (#[trigger] message[i]).id == message[0].id
            &&& message[i].sequence_number == i + 1
            &&& message[i].sequence_count == message.len()
        }
}

/// Whether `order` names each of the places `0 .. n` once.
pub open spec fn is_order(order: Seq<int>, n: nat) -> bool {
    &&& order.len() == n
    &&& forall|t: int| 0 <= t < n ==> 0 <= #[trigger] order[t] < n
    &&& forall|t: int, u: int| 0 <= t < n && 0 <= u < n && t != u ==> order[t] != order[u]
}

/// The bytes of a message: the payloads of its fragments, in sequence order.
pub open spec fn payload_of(message: Seq<ChunkView>) -> Seq<u8>
    decreases message.len(),
{
    if message.len() == 0 {
        Seq::empty()
    } else {
        payload_of(message.drop_last()) + message.last().payload
    }
}

/// Whether `slot` is among the first `taken` places that `order` names.
pub open spec fn filled_by(order: Seq<int>, taken: int, slot: int) -> bool {
    exists|t: int| 0 <= t < taken && #[trigger] order[t] == slot
}

/// The set of `message` once the first `taken` fragments that `order` names
/// have been taken in.
pub open spec fn partial_set(message: Seq<ChunkView>, order: Seq<int>, taken: int) -> ChunkSetView {
    ChunkSetView {
        slots: Seq::new(
            message.len(),
            |i: int|
                if filled_by(order, taken, i) {
                    Some(message[i])
                } else {
                    None
                },
        ),
        rcv_count: taken as nat,
        first_arrival: message[order[0]].arrival,
    }
}

/// The complete set of `message`, made when the fragment at place `first`
/// came: every fragment stands in the slot of its sequence number.
pub open spec fn whole_set(message: Seq<ChunkView>, first: int) -> ChunkSetView {
    ChunkSetView {
        slots: Seq::new(message.len(), |i: int| Some(message[i])),
        rcv_count: message.len(),
        first_arrival: message[first].arrival,
    }
}

/// The instant at which `message` expires when its fragments come in the
/// order `order`: the arrival of the first to come, and the time to live.
pub open spec fn deadline_of(message: Seq<ChunkView>, order: Seq<int>) -> int {
    message[order[0]].arrival.nanos() + TTL_NANOS
}

/// Whether the accumulator has taken in the first `taken` fragments of
/// `message` that `order` names, and nothing stands in the way of the rest.
pub open spec fn awaits(
    state: AccumulatorView,
    message: Seq<ChunkView>,
    order: Seq<int>,
    taken: int,
) -> bool {
    let id = message[0].id;
    &&& state.wf()
    &&& state.reaper.running
    &&& records_expire_at(state.reaper.queue, id, deadline_of(message, order))
    &&& taken == 0 ==> !state.sets.contains_key(id)
    &&& taken > 0 ==> state.sets.contains_key(id) && state.sets[id] == partial_set(
        message,
        order,
        taken,
    )
}

/// The complete set of a message holds the message's bytes.
pub proof fn lemma_whole_set_holds_message(message: Seq<ChunkView>, first: int)
    ensures
        whole_set(message, first).payload() == payload_of(message),
    decreases message.len(),
{
    if message.len() > 0 {
        lemma_whole_set_holds_message(message.drop_last(), first);
        assert(whole_set(message, first).slots.drop_last() =~= whole_set(
            message.drop_last(),
            first,
        ).slots);
    }
}

/// One more fragment of a message that the accumulator awaits, accepted
/// before the message expires: the last one completes the message, any
/// other leaves it waiting.
pub proof fn lemma_own_fragment(
    state: AccumulatorView,
    message: Seq<ChunkView>,
    order: Seq<int>,
    taken: int,
    now: Timestamp,
)
    requires
        is_message(message),
        is_order(order, message.len()),
        0 <= taken < message.len(),
        awaits(state, message, order, taken),
        now.nanos() < deadline_of(message, order),
    ensures
        taken + 1 < message.len() ==> {
            &&& state.accept(message[order[taken]], now).1 == Ok::<Option<ChunkSetView>, Error>(
                None,
            )
            &&& awaits(state.accept(message[order[taken]], now).0, message, order, taken + 1)
        },
        taken + 1 == message.len() ==> {
            &&& state.accept(message[order[taken]], now).1 == Ok::<Option<ChunkSetView>, Error>(
                Some(whole_set(message, order[0])),
            )
            &&& !state.accept(message[order[taken]], now).0.sets.contains_key(message[0].id)
        },
{
    let id = message[0].id;
    let n = message.len();
    let deadline = deadline_of(message, order);
    let index = order[taken];
    let chunk = message[index];
    let reaped = state.reap(now);
    lemma_reap_spares(state, now, id, deadline);
    lemma_reap_keeps_wf(state, now);
    lemma_offer_keeps_wf(reaped, chunk, now);
    lemma_new_set_is_empty(chunk.sequence_count, chunk.arrival);
    let old_set = partial_set(message, order, taken);
    if taken == 0 {
        assert(ChunkSetView::new(chunk.sequence_count, chunk.arrival) =~= old_set);
    } else {
        assert(reaped.sets.contains_key(id));
        assert(in_flight(reaped.sets[id], id));
    }
    assert(old_set.wf());
    assert(!filled_by(order, taken, index));
    assert(old_set.slots[index] is None);
    lemma_accept_keeps_wf(old_set, chunk);
    let new_set = old_set.accept(chunk).0;
    assert(new_set =~= partial_set(message, order, taken + 1)) by {
        assert forall|i: int| 0 <= i < n implies new_set.slots[i] == partial_set(
            message,
            order,
            taken + 1,
        ).slots[i] by {
            if i == index {
                assert(order[taken] == i);
                assert(filled_by(order, taken + 1, i));
            } else if filled_by(order, taken, i) {
                let t = choose|t: int| 0 <= t < taken && #[trigger] order[t] == i;
                assert(order[t] == i);
                assert(filled_by(order, taken + 1, i));
            } else if filled_by(order, taken + 1, i) {
                let t = choose|t: int| 0 <= t < taken + 1 && #[trigger] order[t] == i;
                assert(t != taken);
                assert(order[t] == i);
                assert(filled_by(order, taken, i));
            }
        }
    }
    let (next, outcome) = state.accept(chunk, now);
    if taken + 1 == n {
        lemma_all_filled(new_set.slots);
        assert(new_set =~= whole_set(message, order[0])) by {
            assert forall|i: int| 0 <= i < n implies new_set.slots[i] == Some(message[i]) by {
                assert(new_set.slots[i] is Some);
            }
        }
    } else {
        let queue = next.reaper.queue;
        assert forall|j: int| 0 <= j < queue.len() && (#[trigger] queue[j]).id == id implies queue[j].deadline
            == deadline by {
            if j < reaped.reaper.queue.len() {
                assert(queue[j] == reaped.reaper.queue[j]);
            }
        }
    }
}

/// The state after the first `count` fragments of `stream` were accepted in
/// turn, the fragment at place `p` at the time `times[p]`.
pub open spec fn state_after(
    state: AccumulatorView,
    stream: Seq<ChunkView>,
    times: Seq<Timestamp>,
    count: nat,
) -> AccumulatorView
    decreases count,
{
    if count == 0 {
        state
    } else {
        state_after(state, stream, times, (count - 1) as nat).accept(
            stream[count - 1],
            times[count - 1],
        ).0
    }
}

/// What accepting the fragment at `place` comes to, once the fragments
/// before it were accepted in turn.
pub open spec fn outcome_at(
    state: AccumulatorView,
    stream: Seq<ChunkView>,
    times: Seq<Timestamp>,
    place: int,
) -> Result<Option<ChunkSetView>, Error> {
    state_after(state, stream, times, place as nat).accept(stream[place], times[place]).1
}

/// Whether `stream` carries the fragments of `message` at the places
/// `places`, which rise, in the order `order`, and nothing else of that
/// message's id.
pub open spec fn carries(
    stream: Seq<ChunkView>,
    places: Seq<int>,
    message: Seq<ChunkView>,
    order: Seq<int>,
) -> bool {
    &&& places.len() == message.len()
    &&& forall|t: int|
        0 <= t < places.len() ==> 0 <= #[trigger] places[t] < stream.len() && stream[places[t]]
            == message[order[t]]
    &&& forall|t: int, u: int| 0 <= t < u < places.len() ==> places[t] < places[u]
    &&& forall|p: int|
        0 <= p < stream.len() && (#[trigger] stream[p]).id == message[0].id ==> exists|t: int|
            0 <= t < places.len() && #[trigger] places[t] == p
}

/// Whether the accumulator knows nothing of the message `id`: neither a set
/// nor a record of the eviction queue bears it.
pub open spec fn unknown_to(state: AccumulatorView, id: [u8; 8]) -> bool {
    &&& !state.sets.contains_key(id)
    &&& forall|j: int|
        0 <= j < state.reaper.queue.len() ==> (#[trigger] state.reaper.queue[j]).id != id
}

/// Whether the accumulator is fit to reassemble `message` from `stream`: it
/// is well formed, its reaper runs, it knows nothing of the message's id,
/// and every fragment up to the message's last is accepted before the
/// message expires.
pub open spec fn fit_for(
    state: AccumulatorView,
    stream: Seq<ChunkView>,
    times: Seq<Timestamp>,
    places: Seq<int>,
    message: Seq<ChunkView>,
    order: Seq<int>,
) -> bool {
    &&& state.wf()
    &&& state.reaper.running
    &&& unknown_to(state, message[0].id)
    &&& times.len() == stream.len()
    &&& forall|p: int|
        0 <= p <= places.last() ==> (#[trigger] times[p]).nanos() < deadline_of(message, order)
}

/// Before the fragment at the place `places[taken]` is accepted, the
/// accumulator has taken in exactly the `taken` fragments of the message
/// that came before it.
proof fn lemma_progress(
    state: AccumulatorView,
    stream: Seq<ChunkView>,
    times: Seq<Timestamp>,
    places: Seq<int>,
    message: Seq<ChunkView>,
    order: Seq<int>,
    count: nat,
    taken: int,
)
    requires
        is_message(message),
        is_order(order, message.len()),
        carries(stream, places, message, order),
        fit_for(state, stream, times, places, message, order),
        0 <= taken < message.len(),
        count <= places[taken],
        taken > 0 ==> places[taken - 1] < count,
    ensures
        awaits(state_after(state, stream, times, count), message, order, taken),
    decreases count,
{
    let id = message[0].id;
    let deadline = deadline_of(message, order);
    if count == 0 {
        assert(taken == 0) by {
            if taken > 0 {
                assert(0 <= places[taken - 1]);
            }
        }
    } else {
        let place = count - 1;
        let before = state_after(state, stream, times, place as nat);
        assert(places[taken] <= places.last()) by {
            if taken < places.len() - 1 {
                assert(places[taken] < places[places.len() - 1]);
            }
        }
        assert(times[place].nanos() < deadline);
        if taken > 0 && places[taken - 1] == place {
            if taken > 1 {
                assert(places[taken - 2] < places[taken - 1]);
            }
            lemma_progress(state, stream, times, places, message, order, place as nat, taken - 1);
            assert(stream[place] == message[order[taken - 1]]);
            lemma_own_fragment(before, message, order, taken - 1, times[place]);
        } else {
            lemma_progress(state, stream, times, places, message, order, place as nat, taken);
            assert(stream[place].id != id) by {
                if stream[place].id == id {
                    let t = choose|t: int| 0 <= t < places.len() && #[trigger] places[t] == place;
                    if t < taken {
                        if t < taken - 1 {
                            assert(places[t] < places[taken - 1]);
                        }
                    } else if t > taken {
                        assert(places[taken] < places[t]);
                    }
                }
            }
            lemma_messages_are_independent(before, stream[place], times[place], id, deadline);
            lemma_accept_keeps_accumulator_wf(before, stream[place], times[place]);
        }
    }
}

/// **Reassembly.** A message whose fragments come in any order, with
/// fragments of other messages between them, is completed exactly once, by
/// the last of its fragments to come: every fragment before it leaves the
/// message waiting, and the last hands out the set that holds each fragment
/// in the slot of its sequence number, and so the bytes of the message. The
/// table then holds nothing of the message any more.
///
/// This is stated of an accumulator whose reaper runs and which knows
/// nothing of the message's id, and of fragments that are all accepted
/// before the message expires.
pub proof fn lemma_reassembly(
    state: AccumulatorView,
    stream: Seq<ChunkView>,
    times: Seq<Timestamp>,
    places: Seq<int>,
    message: Seq<ChunkView>,
    order: Seq<int>,
)
    requires
        is_message(message),
        is_order(order, message.len()),
        carries(stream, places, message, order),
        fit_for(state, stream, times, places, message, order),
    ensures
        forall|t: int|
            0 <= t < places.len() - 1 ==> outcome_at(state, stream, times, #[trigger] places[t])
                == Ok::<Option<ChunkSetView>, Error>(None),
        outcome_at(state, stream, times, places.last()) == Ok::<Option<ChunkSetView>, Error>(
            Some(whole_set(message, order[0])),
        ),
        whole_set(message, order[0]).payload() == payload_of(message),
        !state_after(state, stream, times, (places.last() + 1) as nat).sets.contains_key(
            message[0].id,
        ),
{
    let n = message.len() as int;
    let deadline = deadline_of(message, order);
    lemma_whole_set_holds_message(message, order[0]);
    assert forall|t: int| 0 <= t < n implies {
        &&& t < n - 1 ==> outcome_at(state, stream, times, #[trigger] places[t]) == Ok::<
            Option<ChunkSetView>,
            Error,
        >(None)
        &&& t == n - 1 ==> outcome_at(state, stream, times, places[t]) == Ok::<
            Option<ChunkSetView>,
            Error,
        >(Some(whole_set(message, order[0]))) && !state_after(
            state,
            stream,
            times,
            (places[t] + 1) as nat,
        ).sets.contains_key(message[0].id)
    } by {
        let place = places[t];
        if t > 0 {
            assert(places[t - 1] < places[t]);
        }
        if t < n - 1 {
            assert(places[t] < places[n - 1]);
        }
        lemma_progress(state, stream, times, places, message, order, place as nat, t);
        assert(times[place].nanos() < deadline);
        assert(stream[place] == message[order[t]]);
        lemma_own_fragment(
            state_after(state, stream, times, place as nat),
            message,
            order,
            t,
            times[place],
        );
    }
    assert(places.last() == places[n - 1]);
}

/// The fragments of `message` in the order `order`.
pub open spec fn shuffled(message: Seq<ChunkView>, order: Seq<int>) -> Seq<ChunkView> {
    Seq::new(message.len(), |t: int| message[order[t]])
}

/// **Any order.** The fragments of a message, fed to an accumulator in any
/// order, give nothing on every accept but the last, and on the last the
/// complete set, which holds the bytes of the message.
///
/// This is stated of an accumulator whose reaper runs and which knows
/// nothing of the message's id, and of fragments that are all accepted
/// before the message expires.
pub proof fn lemma_any_order_completes_once(
    state: AccumulatorView,
    message: Seq<ChunkView>,
    order: Seq<int>,
    times: Seq<Timestamp>,
)
    requires
        is_message(message),
        is_order(order, message.len()),
        state.wf(),
        state.reaper.running,
        unknown_to(state, message[0].id),
        times.len() == message.len(),
        forall|p: int|
            0 <= p < times.len() ==> (#[trigger] times[p]).nanos() < deadline_of(message, order),
    ensures
        forall|p: int|
            0 <= p < message.len() - 1 ==> #[trigger] outcome_at(
                state,
                shuffled(message, order),
                times,
                p,
            ) == Ok::<Option<ChunkSetView>, Error>(None),
        outcome_at(state, shuffled(message, order), times, message.len() - 1) == Ok::<
            Option<ChunkSetView>,
            Error,
        >(Some(whole_set(message, order[0]))),
        whole_set(message, order[0]).payload() == payload_of(message),
{
    let stream = shuffled(message, order);
    let places = Seq::new(message.len(), |t: int| t);
    assert(carries(stream, places, message, order)) by {
        assert forall|p: int|
            0 <= p < stream.len() && (#[trigger] stream[p]).id == message[0].id implies exists|
            t: int,
        |
            0 <= t < places.len() && #[trigger] places[t] == p by {
            assert(places[p] == p);
        }
    }
    lemma_reassembly(state, stream, times, places, message, order);
    assert forall|p: int| 0 <= p < message.len() - 1 implies #[trigger] outcome_at(
        state,
        stream,
        times,
        p,
    ) == Ok::<Option<ChunkSetView>, Error>(None) by {
        assert(places[p] == p);
    }
}

/// Whether `place` is one of `places`.
pub open spec fn is_among(places: Seq<int>, place: int) -> bool {
    exists|t: int| 0 <= t < places.len() && #[trigger] places[t] == place
}

/// Whether `stream` is made of the fragments of the messages `a` and `b`
/// and of nothing else: those of `a` at the places `places_a` in the order
/// `order_a`, those of `b` at the places `places_b` in the order `order_b`.
pub open spec fn interleaves(
    stream: Seq<ChunkView>,
    places_a: Seq<int>,
    a: Seq<ChunkView>,
    order_a: Seq<int>,
    places_b: Seq<int>,
    b: Seq<ChunkView>,
    order_b: Seq<int>,
) -> bool {
    &&& places_a.len() == a.len()
    &&& places_b.len() == b.len()
    &&& forall|t: int|
        0 <= t < places_a.len() ==> 0 <= #[trigger] places_a[t] < stream.len()
            && stream[places_a[t]] == a[order_a[t]]
    &&& forall|t: int|
        0 <= t < places_b.len() ==> 0 <= #[trigger] places_b[t] < stream.len()
            && stream[places_b[t]] == b[order_b[t]]
    &&& forall|t: int, u: int| 0 <= t < u < places_a.len() ==> places_a[t] < places_a[u]
    &&& forall|t: int, u: int| 0 <= t < u < places_b.len() ==> places_b[t] < places_b[u]
    &&& forall|p: int|
        0 <= p < stream.len() ==> #[trigger] is_among(places_a, p) || is_among(places_b, p)
}

/// **Two messages.** Two messages of distinct ids whose fragments come
/// interleaved, each in any order, are both completed, each by the last of
/// its own fragments and with its own bytes: no accept of a fragment of the
/// one hands out the other, and every accept but those two gives nothing.
///
/// This is stated of an accumulator whose reaper runs and which knows
/// nothing of either id, and of fragments that are all accepted before
/// either message expires.
pub proof fn lemma_two_messages_complete_independently(
    state: AccumulatorView,
    stream: Seq<ChunkView>,
    times: Seq<Timestamp>,
    places_a: Seq<int>,
    a: Seq<ChunkView>,
    order_a: Seq<int>,
    places_b: Seq<int>,
    b: Seq<ChunkView>,
    order_b: Seq<int>,
)
    requires
        is_message(a),
        is_message(b),
        a[0].id != b[0].id,
        is_order(order_a, a.len()),
        is_order(order_b, b.len()),
        interleaves(stream, places_a, a, order_a, places_b, b, order_b),
        state.wf(),
        state.reaper.running,
        unknown_to(state, a[0].id),
        unknown_to(state, b[0].id),
        times.len() == stream.len(),
        forall|p: int|
            0 <= p < times.len() ==> (#[trigger] times[p]).nanos() < deadline_of(a, order_a)
                && times[p].nanos() < deadline_of(b, order_b),
    ensures
        forall|p: int|
            0 <= p < stream.len() && p != places_a.last() && p != places_b.last()
                ==> #[trigger] outcome_at(state, stream, times, p) == Ok::<
                Option<ChunkSetView>,
                Error,
            >(None),
        outcome_at(state, stream, times, places_a.last()) == Ok::<Option<ChunkSetView>, Error>(
            Some(whole_set(a, order_a[0])),
        ),
        outcome_at(state, stream, times, places_b.last()) == Ok::<Option<ChunkSetView>, Error>(
            Some(whole_set(b, order_b[0])),
        ),
        whole_set(a, order_a[0]).payload() == payload_of(a),
        whole_set(b, order_b[0]).payload() == payload_of(b),
{
    assert(carries(stream, places_a, a, order_a)) by {
        assert forall|p: int|
            0 <= p < stream.len() && (#[trigger] stream[p]).id == a[0].id implies exists|t: int|
            0 <= t < places_a.len() && #[trigger] places_a[t] == p by {
            assert(is_among(places_a, p) || is_among(places_b, p));
            if is_among(places_b, p) {
                let t = choose|t: int| 0 <= t < places_b.len() && #[trigger] places_b[t] == p;
                assert(stream[places_b[t]] == b[order_b[t]]);
                assert(b[order_b[t]].id == b[0].id);
            }
        }
    }
    assert(carries(stream, places_b, b, order_b)) by {
        assert forall|p: int|
            0 <= p < stream.len() && (#[trigger] stream[p]).id == b[0].id implies exists|t: int|
            0 <= t < places_b.len() && #[trigger] places_b[t] == p by {
            assert(is_among(places_a, p) || is_among(places_b, p));
            if is_among(places_a, p) {
                let t = choose|t: int| 0 <= t < places_a.len() && #[trigger] places_a[t] == p;
                assert(stream[places_a[t]] == a[order_a[t]]);
                assert(a[order_a[t]].id == a[0].id);
            }
        }
    }
    assert(0 <= places_a.last() < stream.len()) by {
        assert(places_a.last() == places_a[places_a.len() - 1]);
    }
    assert(0 <= places_b.last() < stream.len()) by {
        assert(places_b.last() == places_b[places_b.len() - 1]);
    }
    lemma_reassembly(state, stream, times, places_a, a, order_a);
    lemma_reassembly(state, stream, times, places_b, b, order_b);
    assert forall|p: int|
        0 <= p < stream.len() && p != places_a.last() && p != places_b.last()
            implies #[trigger] outcome_at(state, stream, times, p) == Ok::<
        Option<ChunkSetView>,
        Error,
    >(None) by {
        assert(is_among(places_a, p) || is_among(places_b, p));
        if is_among(places_a, p) {
            let t = choose|t: int| 0 <= t < places_a.len() && #[trigger] places_a[t] == p;
            assert(outcome_at(state, stream, times, places_a[t]) == Ok::<
                Option<ChunkSetView>,
                Error,
            >(None));
        } else {
            let t = choose|t: int| 0 <= t < places_b.len() && #[trigger] places_b[t] == p;
            assert(outcome_at(state, stream, times, places_b[t]) == Ok::<
                Option<ChunkSetView>,
                Error,
            >(None));
        }
    }
}

} // verus!
