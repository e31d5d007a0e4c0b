//! The reaper: the task that evicts partial messages whose time has run out.
//!
//! The reaper is written as a state machine. Whoever runs it waits for the
//! time that `timeout` names, on a signal or on the timer, whichever comes
//! first, and hands what happened to `step`, which says what to do next.
//! Its only state is a queue of deadlines, served first in, first out.

use vstd::prelude::*;
use crate::clock::{clamp_nanos, instant_after, Timestamp};

verus! {

/// A record of the eviction queue: the message that is to go, and when.
#[derive(Debug, Clone, Copy, PartialEq, Eq)]
pub struct EvictionEntry {
    /// The id of the message.
    pub id: [u8; 8],
    /// The instant from which the message is expired, in nanoseconds since
    /// the epoch.
    pub deadline: i128,
}

/// What the accumulator tells the reaper.
#[derive(Debug, Clone, Copy, PartialEq, Eq)]
pub enum Signal {
    /// A partial message was stored: its id, and the nanoseconds that are
    /// left until it expires.
    EvictionEntry([u8; 8], i128),
    /// The accumulator shuts down.
    Quit,
}

/// What the reaper was woken by.
#[derive(Debug, Clone, Copy, PartialEq, Eq)]
pub enum ReaperEvent {
    /// A signal arrived.
    Signal(Signal),
    /// The time that `timeout` named has passed.
    Timeout,
}

/// What the reaper asks for after an event.
#[derive(Debug, Clone, Copy, PartialEq, Eq)]
pub enum ReaperAction {
    /// Nothing is to be done but to wait again.
    Wait,
    /// The message with this id is to leave the table, if it is still there.
    Evict([u8; 8]),
    /// The reaper has ended; no event will be served again.
    Exit,
}

/// The reaper's state.
#[derive(Debug)]
pub struct Reaper {
    queue: Vec<EvictionEntry>,
    running: bool,
}

/// The reaper's state, as mathematical values.
#[verifier::ext_equal]
pub struct ReaperView {
    /// The pending evictions, the oldest first.
    pub queue: Seq<EvictionEntry>,
    /// Whether the reaper still serves events.
    pub running: bool,
}

/// The nanoseconds from `now` until `deadline`: none where the deadline has
/// passed, and no more than the count can hold.
pub open spec fn time_until(deadline: int, now: int) -> int {
    if deadline <= now {
        0
    } else {
        clamp_nanos(deadline - now)
    }
}

impl ReaperView {
    /// A reaper that has nothing to evict.
    pub open spec fn new() -> ReaperView {
        ReaperView { queue: Seq::empty(), running: true }
    }

    /// How long to wait for a signal before the timer fires: until the
    /// deadline at the head of the queue, or without limit (`None`) where
    /// the queue is empty.
    pub open spec fn timeout(self, now: Timestamp) -> Option<int> {
        if self.queue.len() == 0 {
            None
        } else {
            Some(time_until(self.queue[0].deadline as int, now.nanos()))
        }
    }

    /// The record that an eviction entry received at `now` is queued as.
    pub open spec fn record(id: [u8; 8], expires_in: i128, now: Timestamp) -> EvictionEntry {
        EvictionEntry { id, deadline: clamp_nanos(now.nanos() + expires_in) as i128 }
    }

    /// The state after `event`, which came at `now`, and what is to be done.
    ///
    /// An eviction entry joins the tail of the queue. `Quit` ends the reaper.
    /// A timeout takes the head off the queue and asks for its eviction.
    /// Once ended, the reaper serves nothing.
    pub open spec fn step(self, event: ReaperEvent, now: Timestamp) -> (ReaperView, ReaperAction) {
        if !self.running {
            (self, ReaperAction::Exit)
        } else {
            match event {
                ReaperEvent::Signal(Signal::EvictionEntry(id, expires_in)) => (
                    ReaperView {
                        queue: self.queue.push(Self::record(id, expires_in, now)),
                        running: true,
                    },
                    ReaperAction::Wait,
                ),
                ReaperEvent::Signal(Signal::Quit) => (
                    ReaperView { queue: self.queue, running: false },
                    ReaperAction::Exit,
                ),
                ReaperEvent::Timeout => if self.queue.len() == 0 {
                    (self, ReaperAction::Wait)
                } else {
                    (
                        ReaperView { queue: self.queue.drop_first(), running: true },
                        ReaperAction::Evict(self.queue[0].id),
                    )
                },
            }
        }
    }

    /// The deadlines of the queue never fall from one record to the next.
    pub open spec fn sorted(self) -> bool {
        forall|i: int, j: int|
            0 <= i <= j < self.queue.len() ==> self.queue[i].deadline <= self.queue[j].deadline
    }

    /// Whether `event`, coming at `now`, is no eviction entry that would
    /// expire before the record at the tail of the queue.
    pub open spec fn in_order(self, event: ReaperEvent, now: Timestamp) -> bool {
        event matches ReaperEvent::Signal(Signal::EvictionEntry(id, expires_in)) ==> self.queue.len()
            == 0 || self.queue.last().deadline <= Self::record(id, expires_in, now).deadline
    }
}

/// Events that come in order of their deadlines keep the queue in that
/// order, and at the head of such a queue stands the record that expires
/// first.
pub proof fn lemma_step_keeps_order(reaper: ReaperView, event: ReaperEvent, now: Timestamp)
    requires
        reaper.sorted(),
        reaper.in_order(event, now),
    ensures
        reaper.step(event, now).0.sorted(),
        forall|i: int|
            0 <= i < reaper.queue.len() ==> reaper.queue[0].deadline <= (
            #[trigger] reaper.queue[i]).deadline,
{
    let next = reaper.step(event, now).0;
    assert forall|i: int, j: int| 0 <= i <= j < next.queue.len() implies next.queue[i].deadline
        <= next.queue[j].deadline by {
        if next.queue.len() == reaper.queue.len() + 1 {
            if j < reaper.queue.len() {
                assert(reaper.queue[i].deadline <= reaper.queue[j].deadline);
            } else if i < reaper.queue.len() {
                assert(reaper.queue[i].deadline <= reaper.queue.last().deadline);
            }
        } else if next.queue.len() + 1 == reaper.queue.len() {
            assert(reaper.queue[i + 1].deadline <= reaper.queue[j + 1].deadline);
        } else {
            assert(next.queue =~= reaper.queue);
        }
    }
}

impl View for Reaper {
    type V = ReaperView;

    closed spec fn view(&self) -> ReaperView {
        ReaperView { queue: self.queue@, running: self.running }
    }
}

impl Reaper {
    /// A reaper that has nothing to evict.
    pub fn new() -> (reaper: Reaper)
        ensures
            reaper@ == ReaperView::new(),
    {
        Reaper { queue: Vec::new(), running: true }
    }

    /// Whether the reaper still serves events.
    pub fn is_running(&self) -> (running: bool)
        ensures
            running == self@.running,
    {
        self.running
    }

    /// The number of evictions that are pending.
    pub fn pending(&self) -> (count: usize)
        ensures
            count == self@.queue.len(),
    {
        self.queue.len()
    }

    /// How many nanoseconds to wait for a signal before the timer fires, or
    /// `None` to wait without limit. A deadline that has passed gives zero:
    /// the timer fires at once.
    pub fn timeout(&self, now: &Timestamp) -> (wait: Option<i128>)
        ensures
            wait matches Some(nanos) ==> self@.timeout(*now) == Some(nanos as int),
            wait is None ==> self@.timeout(*now) is None,
    {
        if self.queue.len() == 0 {
            return None;
        }
        let deadline: i128 = self.queue[0].deadline;
        let current: i128 = now.as_nanos();
        if deadline <= current {
            Some(0)
        } else {
            match deadline.checked_sub(current) {
                Some(nanos) => Some(nanos),
                None => Some(i128::MAX),
            }
        }
    }

    /// Serves one event that came at `now` and says what is to be done.
    pub fn step(&mut self, event: ReaperEvent, now: &Timestamp) -> (action: ReaperAction)
        ensures
            final(self)@ == old(self)@.step(event, *now).0,
            action == old(self)@.step(event, *now).1,
    {
        if !self.running {
            return ReaperAction::Exit;
        }
        match event {
            ReaperEvent::Signal(Signal::EvictionEntry(id, expires_in)) => {
                let deadline: i128 = instant_after(now, expires_in);
                self.queue.push(EvictionEntry { id, deadline });
                ReaperAction::Wait
            },
            ReaperEvent::Signal(Signal::Quit) => {
                self.running = false;
                ReaperAction::Exit
            },
            ReaperEvent::Timeout => {
                if self.queue.len() == 0 {
                    ReaperAction::Wait
                } else {
                    let head = self.queue.remove(0);
                    assert(self.queue@ =~= old(self).queue@.drop_first());
                    ReaperAction::Evict(head.id)
                }
            },
        }
    }
}

} // verus!
