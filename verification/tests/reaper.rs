use gelf::clock::Timestamp;
use gelf::reaper::{Reaper, ReaperAction, ReaperEvent, Signal};

const A: [u8; 8] = *b"aaaaaaaa";
const B: [u8; 8] = *b"bbbbbbbb";

fn at(sec: i64) -> Timestamp {
    Timestamp { sec, nsec: 0 }
}

fn entry(id: [u8; 8], expires_in: i128) -> ReaperEvent {
    ReaperEvent::Signal(Signal::EvictionEntry(id, expires_in))
}

#[test]
fn new_reaper_runs_and_waits_without_limit() {
    let reaper = Reaper::new();
    assert!(reaper.is_running());
    assert_eq!(reaper.pending(), 0);
    assert_eq!(reaper.timeout(&at(0)), None);
}

#[test]
fn timeout_is_the_time_until_the_head_deadline() {
    let mut reaper = Reaper::new();
    assert_eq!(reaper.step(entry(A, 5_000_000_000), &at(100)), ReaperAction::Wait);
    assert_eq!(reaper.pending(), 1);
    assert_eq!(reaper.timeout(&at(100)), Some(5_000_000_000));
    assert_eq!(reaper.timeout(&at(103)), Some(2_000_000_000));
    assert_eq!(reaper.timeout(&Timestamp { sec: 104, nsec: 999_999_999 }), Some(1));
}

#[test]
fn timeout_is_zero_once_the_deadline_has_come() {
    let mut reaper = Reaper::new();
    reaper.step(entry(A, 5_000_000_000), &at(100));
    assert_eq!(reaper.timeout(&at(105)), Some(0));
    assert_eq!(reaper.timeout(&at(1000)), Some(0));
}

#[test]
fn entry_that_has_expired_already_is_due_at_once() {
    let mut reaper = Reaper::new();
    reaper.step(entry(A, -1_000_000_000), &at(100));
    assert_eq!(reaper.timeout(&at(100)), Some(0));
    assert_eq!(reaper.timeout(&at(99)), Some(0));
    assert_eq!(reaper.timeout(&at(98)), Some(1_000_000_000));
}

#[test]
fn timeouts_evict_in_the_order_of_arrival() {
    let mut reaper = Reaper::new();
    reaper.step(entry(A, 5_000_000_000), &at(100));
    reaper.step(entry(B, 5_000_000_000), &at(101));
    assert_eq!(reaper.pending(), 2);
    assert_eq!(reaper.step(ReaperEvent::Timeout, &at(105)), ReaperAction::Evict(A));
    assert_eq!(reaper.timeout(&at(105)), Some(1_000_000_000));
    assert_eq!(reaper.step(ReaperEvent::Timeout, &at(106)), ReaperAction::Evict(B));
    assert_eq!(reaper.pending(), 0);
    assert_eq!(reaper.timeout(&at(106)), None);
}

#[test]
fn head_is_waited_for_even_where_a_later_entry_expires_first() {
    let mut reaper = Reaper::new();
    reaper.step(entry(A, 5_000_000_000), &at(100));
    reaper.step(entry(B, 1_000_000_000), &at(100));
    assert_eq!(reaper.timeout(&at(102)), Some(3_000_000_000));
    assert_eq!(reaper.step(ReaperEvent::Timeout, &at(105)), ReaperAction::Evict(A));
    assert_eq!(reaper.timeout(&at(105)), Some(0));
}

#[test]
fn timeout_without_a_pending_eviction_does_nothing() {
    let mut reaper = Reaper::new();
    assert_eq!(reaper.step(ReaperEvent::Timeout, &at(1)), ReaperAction::Wait);
    assert!(reaper.is_running());
    assert_eq!(reaper.pending(), 0);
}

#[test]
fn quit_ends_the_reaper_for_good() {
    let mut reaper = Reaper::new();
    reaper.step(entry(A, 5), &at(1));
    assert_eq!(reaper.step(ReaperEvent::Signal(Signal::Quit), &at(1)), ReaperAction::Exit);
    assert!(!reaper.is_running());
    assert_eq!(reaper.step(ReaperEvent::Timeout, &at(100)), ReaperAction::Exit);
    assert_eq!(reaper.step(entry(B, 5), &at(100)), ReaperAction::Exit);
    assert_eq!(reaper.step(ReaperEvent::Signal(Signal::Quit), &at(100)), ReaperAction::Exit);
    assert_eq!(reaper.pending(), 1);
}

#[test]
fn deadline_is_held_at_the_bounds_of_the_count() {
    let mut reaper = Reaper::new();
    reaper.step(entry(A, i128::MAX), &at(100));
    assert_eq!(reaper.timeout(&at(0)), Some(i128::MAX));
    assert_eq!(reaper.timeout(&at(-1)), Some(i128::MAX));
    let mut reaper = Reaper::new();
    reaper.step(entry(A, i128::MIN), &at(-100));
    assert_eq!(reaper.timeout(&Timestamp { sec: i64::MIN, nsec: 0 }), Some(0));
}
