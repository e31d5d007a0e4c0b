use gelf::clock::{instant_after, Timestamp, NANOS_PER_SEC, TTL_NANOS};

#[test]
fn time_to_live_is_five_seconds() {
    assert_eq!(TTL_NANOS, 5 * NANOS_PER_SEC);
    assert_eq!(NANOS_PER_SEC, 1_000_000_000);
}

#[test]
fn reading_counts_nanoseconds_since_the_epoch() {
    assert_eq!(Timestamp { sec: 0, nsec: 0 }.as_nanos(), 0);
    assert_eq!(Timestamp { sec: 1, nsec: 200_000_000 }.as_nanos(), 1_200_000_000);
    // 1.2 seconds before the epoch is two seconds back and 0.8 forward.
    assert_eq!(Timestamp { sec: -2, nsec: 800_000_000 }.as_nanos(), -1_200_000_000);
    assert_eq!(
        Timestamp { sec: i64::MAX, nsec: i32::MAX }.as_nanos(),
        i64::MAX as i128 * 1_000_000_000 + i32::MAX as i128
    );
    assert_eq!(
        Timestamp { sec: i64::MIN, nsec: i32::MIN }.as_nanos(),
        i64::MIN as i128 * 1_000_000_000 + i32::MIN as i128
    );
}

#[test]
fn instant_after_adds_the_delay() {
    let now = Timestamp { sec: 3, nsec: 7 };
    assert_eq!(instant_after(&now, 0), 3_000_000_007);
    assert_eq!(instant_after(&now, 993), 3_000_001_000);
    assert_eq!(instant_after(&now, -3_000_000_008), -1);
}

#[test]
fn instant_after_stops_at_the_bounds() {
    let now = Timestamp { sec: 3, nsec: 7 };
    assert_eq!(instant_after(&now, i128::MAX), i128::MAX);
    assert_eq!(instant_after(&now, i128::MAX - 3_000_000_007), i128::MAX);
    assert_eq!(instant_after(&now, i128::MAX - 3_000_000_008), i128::MAX - 1);
    let past = Timestamp { sec: -3, nsec: 0 };
    assert_eq!(instant_after(&past, i128::MIN), i128::MIN);
    assert_eq!(instant_after(&past, i128::MIN + 3_000_000_001), i128::MIN + 1);
}
