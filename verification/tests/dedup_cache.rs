use mempool_listener::dedup::{DedupCache, TxHash, TX_DEDUP_MAX, TX_DEDUP_TTL_NANOS};

fn h(n: u128) -> TxHash {
    (n, n.wrapping_mul(31))
}

#[test]
fn new_cache_is_empty() {
    let cache = DedupCache::new(TX_DEDUP_MAX, TX_DEDUP_TTL_NANOS);
    assert_eq!(cache.len(), 0);
    assert!(!cache.contains(&h(1)));
}

#[test]
fn listener_limits_are_ten_minutes_and_half_a_million() {
    assert_eq!(TX_DEDUP_MAX, 500_000);
    assert_eq!(TX_DEDUP_TTL_NANOS, 10 * 60 * 1_000_000_000);
}

#[test]
fn first_sighting_is_new_and_cached() {
    let mut cache = DedupCache::new(10, 1_000);
    assert!(cache.observe(h(1), 5));
    assert!(cache.contains(&h(1)));
    assert_eq!(cache.len(), 1);
}

#[test]
fn repeat_sighting_is_duplicate() {
    let mut cache = DedupCache::new(10, 1_000);
    assert!(cache.observe(h(7), 0));
    assert!(!cache.observe(h(7), 1));
    assert!(!cache.observe(h(7), 999_999));
    assert_eq!(cache.len(), 1);
}

#[test]
fn distinct_hashes_with_equal_high_half_are_both_new() {
    let mut cache = DedupCache::new(10, 1_000);
    assert!(cache.observe((1, 2), 0));
    assert!(cache.observe((1, 3), 0));
    assert_eq!(cache.len(), 2);
}

#[test]
fn oldest_hash_leaves_when_full() {
    let mut cache = DedupCache::new(2, 1_000_000);
    assert!(cache.observe(h(1), 1));
    assert!(cache.observe(h(2), 2));
    assert!(cache.observe(h(3), 3));
    assert_eq!(cache.len(), 2);
    assert!(!cache.contains(&h(1)));
    assert!(cache.contains(&h(2)));
    assert!(cache.contains(&h(3)));
    // the evicted hash counts as new again
    assert!(cache.observe(h(1), 4));
    assert!(!cache.contains(&h(2)));
}

#[test]
fn expired_hashes_leave_on_next_new_hash() {
    let mut cache = DedupCache::new(100, 10);
    assert!(cache.observe(h(1), 0));
    assert!(cache.observe(h(2), 5));
    // 11 ns after h(1): h(1) expired, h(2) (6 ns old) is kept
    assert!(cache.observe(h(3), 11));
    assert!(!cache.contains(&h(1)));
    assert!(cache.contains(&h(2)));
    assert!(cache.contains(&h(3)));
    assert_eq!(cache.len(), 2);
}

#[test]
fn age_equal_to_ttl_is_not_expired() {
    let mut cache = DedupCache::new(100, 10);
    assert!(cache.observe(h(1), 0));
    assert!(cache.observe(h(2), 10));
    assert!(cache.contains(&h(1)));
}

#[test]
fn expired_hash_is_still_a_duplicate_until_a_new_hash_arrives() {
    let mut cache = DedupCache::new(100, 10);
    assert!(cache.observe(h(1), 0));
    assert!(!cache.observe(h(1), 1_000));
    assert!(cache.contains(&h(1)));
    assert!(cache.observe(h(2), 1_000));
    assert!(!cache.contains(&h(1)));
    assert!(cache.observe(h(1), 1_001));
}

#[test]
fn expiry_stops_at_first_fresh_hash() {
    // arrival times out of order: a fresh hash in front shields an old one behind it
    let mut cache = DedupCache::new(100, 10);
    assert!(cache.observe(h(1), 100));
    assert!(cache.observe(h(2), 0));
    assert!(cache.observe(h(3), 105));
    assert!(cache.contains(&h(2)));
    assert_eq!(cache.len(), 3);
}

#[test]
fn timestamp_in_the_future_counts_as_no_time_passed() {
    let mut cache = DedupCache::new(100, 10);
    assert!(cache.observe(h(1), 1_000));
    assert!(cache.observe(h(2), 0));
    assert!(cache.contains(&h(1)));
}

#[test]
fn zero_capacity_keeps_nothing() {
    let mut cache = DedupCache::new(0, 10);
    assert!(cache.observe(h(1), 0));
    assert_eq!(cache.len(), 0);
    assert!(cache.observe(h(1), 0));
}

#[test]
fn new_hash_is_never_expired_itself() {
    let mut cache = DedupCache::new(100, 0);
    assert!(cache.observe(h(1), 0));
    assert!(cache.observe(h(2), 1));
    assert!(!cache.contains(&h(1)));
    assert!(cache.contains(&h(2)));
}
