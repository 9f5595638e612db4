use kv::storage::db::{self, Entry, Store};
use kv::storage::expiry::{
    cleanup_all_expired, cleanup_expired_keys, evict_expired, run_expiry_cycle, ExpiryConfig,
    ExpiryStats,
};

const SECOND: u64 = 1_000_000_000;

/// A reading of the clock that leaves room for deadlines in the past.
const NOW: u64 = 1_000 * SECOND;

fn past() -> Option<u128> {
    Some((NOW - SECOND) as u128)
}

fn future(seconds: u64) -> Option<u128> {
    Some((NOW + seconds * SECOND) as u128)
}

#[test]
fn test_cleanup_expired_keys() {
    let mut store = db::new();
    store.insert("expired1".to_string(), Entry::with_expiry("value1".to_string(), past()));
    store.insert("expired2".to_string(), Entry::with_expiry("value2".to_string(), past()));
    store.insert("valid".to_string(), Entry::with_expiry("value3".to_string(), future(100)));
    store.insert("permanent".to_string(), Entry::with_expiry("value4".to_string(), None));

    let config = ExpiryConfig::default().with_batch_size(100);
    let mut stats = ExpiryStats::default();
    // 150 ms after the entries were written, as one tick of the reaper.
    run_expiry_cycle(&mut store, &config, &mut stats, NOW + 150_000_000);

    assert_eq!(store.len(), 2);
    assert!(store.contains_key("valid"));
    assert!(store.contains_key("permanent"));
}

#[test]
fn test_expiry_config_builder() {
    let config = ExpiryConfig::default().with_interval(SECOND).with_batch_size(50);

    assert_eq!(config.interval, SECOND);
    assert_eq!(config.batch_size, 50);
}

#[test]
fn test_cleanup_all_expired() {
    let mut store = db::new();
    for i in 0..10 {
        store.insert(format!("key{}", i), Entry::with_expiry(format!("value{}", i), past()));
    }
    store.insert("valid".to_string(), Entry::with_expiry("value".to_string(), None));

    let removed = cleanup_all_expired(&mut store, NOW);

    assert_eq!(removed, 10);
    assert_eq!(store.len(), 1);
    assert!(store.contains_key("valid"));
}

#[test]
fn config_defaults() {
    let config = ExpiryConfig::default();
    assert_eq!(config.interval, 100_000_000);
    assert_eq!(config.batch_size, 20);
}

#[test]
fn with_batch_size_keeps_interval() {
    let config = ExpiryConfig::default().with_interval(7).with_batch_size(3);
    assert_eq!(config.interval, 7);
    assert_eq!(config.batch_size, 3);
    let config = config.with_interval(9);
    assert_eq!(config.batch_size, 3);
}

#[test]
fn stats_start_at_zero_and_count_cycles() {
    let mut stats = ExpiryStats::default();
    assert_eq!(stats.cycles_run, 0);
    assert_eq!(stats.keys_expired, 0);
    assert!(!stats.record_cycle(0));
    assert!(stats.record_cycle(3));
    assert!(stats.record_cycle(4));
    assert_eq!(stats.cycles_run, 3);
    assert_eq!(stats.keys_expired, 7);
}

#[test]
fn stats_know_when_they_are_full() {
    let stats = ExpiryStats { cycles_run: u64::MAX, keys_expired: 0 };
    assert!(!stats.can_record(0));
    let stats = ExpiryStats { cycles_run: 0, keys_expired: u64::MAX - 5 };
    assert!(stats.can_record(5));
    assert!(!stats.can_record(6));
}

#[test]
fn entry_new_counts_milliseconds_from_now() {
    let entry = Entry::new("v".to_string(), Some(250), NOW);
    assert_eq!(entry.value, "v");
    assert_eq!(entry.expires_at, Some(NOW as u128 + 250_000_000));
    let entry = Entry::new("v".to_string(), None, NOW);
    assert_eq!(entry.expires_at, None);
}

#[test]
fn entry_new_never_overflows() {
    let entry = Entry::new("v".to_string(), Some(u64::MAX), u64::MAX);
    assert_eq!(entry.expires_at, Some(u64::MAX as u128 + u64::MAX as u128 * 1_000_000));
}

#[test]
fn entry_expires_strictly_after_its_deadline() {
    let entry = Entry::with_expiry("v".to_string(), Some(NOW as u128));
    assert!(!entry.is_expired(NOW - 1));
    assert!(!entry.is_expired(NOW));
    assert!(entry.is_expired(NOW + 1));
    let forever = Entry::with_expiry("v".to_string(), None);
    assert!(!forever.is_expired(u64::MAX));
}

#[test]
fn cycle_looks_at_first_keys_only() {
    let mut store = Store::new();
    for i in 0..5 {
        store.insert(format!("k{}", i), Entry::with_expiry("v".to_string(), past()));
    }
    let removed = cleanup_expired_keys(&mut store, 2, NOW);
    assert_eq!(removed, 2);
    assert_eq!(store.len(), 3);
    assert!(!store.contains_key("k0"));
    assert!(!store.contains_key("k1"));
    assert!(store.contains_key("k2"));
    assert!(store.contains_key("k3"));
    assert!(store.contains_key("k4"));
}

#[test]
fn cycle_with_empty_batch_removes_nothing() {
    let mut store = Store::new();
    store.insert("k".to_string(), Entry::with_expiry("v".to_string(), past()));
    assert_eq!(cleanup_expired_keys(&mut store, 0, NOW), 0);
    assert_eq!(store.len(), 1);
}

#[test]
fn cycle_leaves_live_sampled_keys() {
    let mut store = Store::new();
    store.insert("live".to_string(), Entry::with_expiry("a".to_string(), future(1)));
    store.insert("dead".to_string(), Entry::with_expiry("b".to_string(), past()));
    store.insert("forever".to_string(), Entry::with_expiry("c".to_string(), None));
    assert_eq!(cleanup_expired_keys(&mut store, 20, NOW), 1);
    assert_eq!(store.get("live").map(|e| e.value.clone()), Some("a".to_string()));
    assert_eq!(store.get("forever").map(|e| e.value.clone()), Some("c".to_string()));
    assert!(store.get("dead").is_none());
}

#[test]
fn cycle_counts_into_stats() {
    let mut store = Store::new();
    store.insert("a".to_string(), Entry::with_expiry("1".to_string(), past()));
    store.insert("b".to_string(), Entry::with_expiry("2".to_string(), None));
    let config = ExpiryConfig::default();
    let mut stats = ExpiryStats::default();
    assert_eq!(run_expiry_cycle(&mut store, &config, &mut stats, NOW), 1);
    assert_eq!(run_expiry_cycle(&mut store, &config, &mut stats, NOW), 0);
    assert_eq!(stats.cycles_run, 2);
    assert_eq!(stats.keys_expired, 1);
}

#[test]
fn evict_tolerates_unknown_and_repeated_keys() {
    let mut store = Store::new();
    store.insert("a".to_string(), Entry::with_expiry("1".to_string(), past()));
    store.insert("b".to_string(), Entry::with_expiry("2".to_string(), None));
    let keys = vec!["a".to_string(), "nope".to_string(), "a".to_string(), "b".to_string()];
    assert_eq!(evict_expired(&mut store, &keys, NOW), 1);
    assert_eq!(store.keys(), vec!["b".to_string()]);
}

#[test]
fn sweep_of_empty_store() {
    let mut store = Store::new();
    assert_eq!(cleanup_all_expired(&mut store, NOW), 0);
    assert!(store.is_empty());
}

#[test]
fn sweep_keeps_entry_at_its_deadline() {
    let mut store = Store::new();
    store.insert("edge".to_string(), Entry::with_expiry("v".to_string(), Some(NOW as u128)));
    assert_eq!(cleanup_all_expired(&mut store, NOW), 0);
    assert_eq!(cleanup_all_expired(&mut store, NOW + 1), 1);
    assert!(store.is_empty());
}
