use ketu::rate::{is_over_limit, RateTable, RATE_WINDOW_NANOS};

#[test]
fn eleventh_request_is_refused() {
    let mut t = RateTable::new();
    for k in 1..=10 {
        let c = t.count_request("1.2.3.4", k);
        assert_eq!(c, k as u32);
        assert!(!is_over_limit(c));
    }
    let c = t.count_request("1.2.3.4", 11);
    assert_eq!(c, 11);
    assert!(is_over_limit(c));
    assert_eq!(t.count_request("5.6.7.8", 12), 1);
}

#[test]
fn stale_entries_are_evicted() {
    let mut t = RateTable::new();
    t.count_request("a", 0);
    t.count_request("b", 10);
    t.evict_stale(RATE_WINDOW_NANOS - 1);
    assert_eq!(t.count_of("a"), 1);
    t.evict_stale(RATE_WINDOW_NANOS);
    assert_eq!(t.count_of("a"), 0);
    assert_eq!(t.count_of("b"), 1);
}

#[test]
fn window_start_is_kept_while_counting() {
    let mut t = RateTable::new();
    t.count_request("a", 0);
    t.count_request("a", RATE_WINDOW_NANOS / 2);
    t.evict_stale(RATE_WINDOW_NANOS);
    assert_eq!(t.count_of("a"), 0);
}

#[test]
fn peer_sync_adds_and_evicts() {
    let mut t = RateTable::new();
    t.count_request("a", 0);
    assert_eq!(t.sync_from_peer("a", 3, 5), 4);
    assert_eq!(t.sync_from_peer("b", 2, 5), 2);
    assert_eq!(t.sync_from_peer("a", 1, RATE_WINDOW_NANOS + 1), 1);
    assert_eq!(t.count_of("b"), 2);
}

#[test]
fn later_window_start_counts_as_fresh() {
    let mut t = RateTable::new();
    t.count_request("a", 100);
    t.evict_stale(50);
    assert_eq!(t.count_of("a"), 1);
}

#[test]
fn request_after_window_starts_a_new_one() {
    let mut t = RateTable::new();
    for _ in 0..10 {
        t.count_request("a", 0);
    }
    assert_eq!(t.window_count("a", RATE_WINDOW_NANOS - 1), 10);
    assert_eq!(t.window_count("a", RATE_WINDOW_NANOS), 0);
    let c = t.count_request("a", RATE_WINDOW_NANOS);
    assert_eq!(c, 1);
    assert!(!is_over_limit(c));
    assert_eq!(t.count_request("a", RATE_WINDOW_NANOS + 1), 2);
    t.evict_stale(2 * RATE_WINDOW_NANOS - 1);
    assert_eq!(t.count_of("a"), 2);
}
