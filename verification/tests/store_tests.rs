use kv::storage::db::{Entry, Store};

fn entry(value: &str) -> Entry {
    Entry::with_expiry(value.to_string(), None)
}

fn keys(store: &Store) -> Vec<String> {
    store.keys()
}

#[test]
fn new_store_is_empty() {
    let store = Store::new();
    assert_eq!(store.len(), 0);
    assert!(store.is_empty());
    assert!(store.get("k").is_none());
    assert!(!store.contains_key("k"));
    assert!(store.keys().is_empty());
}

#[test]
fn insert_then_get() {
    let mut store = Store::new();
    store.insert("k".to_string(), Entry::with_expiry("v".to_string(), Some(42)));
    let found = store.get("k").expect("present");
    assert_eq!(found.value, "v");
    assert_eq!(found.expires_at, Some(42));
    assert_eq!(store.len(), 1);
    assert!(!store.is_empty());
}

#[test]
fn get_hands_out_expired_entries_too() {
    let mut store = Store::new();
    store.insert("k".to_string(), Entry::with_expiry("v".to_string(), Some(1)));
    let found = store.get("k").expect("present");
    assert!(found.is_expired(2));
}

#[test]
fn insert_replaces_and_keeps_place() {
    let mut store = Store::new();
    store.insert("a".to_string(), entry("1"));
    store.insert("b".to_string(), entry("2"));
    store.insert("a".to_string(), entry("3"));
    assert_eq!(store.len(), 2);
    assert_eq!(store.get("a").map(|e| e.value.clone()), Some("3".to_string()));
    assert_eq!(keys(&store), vec!["a".to_string(), "b".to_string()]);
}

#[test]
fn keys_come_in_insertion_order() {
    let mut store = Store::new();
    for name in ["one", "two", "three", "four"] {
        store.insert(name.to_string(), entry(name));
    }
    assert_eq!(keys(&store), vec!["one", "two", "three", "four"]);
}

#[test]
fn remove_returns_the_entry() {
    let mut store = Store::new();
    store.insert("k".to_string(), Entry::with_expiry("v".to_string(), Some(7)));
    let removed = store.remove("k").expect("was present");
    assert_eq!(removed.value, "v");
    assert_eq!(removed.expires_at, Some(7));
    assert!(store.remove("k").is_none());
    assert!(store.is_empty());
}

#[test]
fn remove_moves_last_key_into_the_gap() {
    let mut store = Store::new();
    for name in ["a", "b", "c", "d"] {
        store.insert(name.to_string(), entry(name));
    }
    store.remove("b");
    assert_eq!(keys(&store), vec!["a", "d", "c"]);
    assert_eq!(store.get("d").map(|e| e.value.clone()), Some("d".to_string()));
    assert_eq!(store.get("c").map(|e| e.value.clone()), Some("c".to_string()));
    store.remove("c");
    assert_eq!(keys(&store), vec!["a", "d"]);
    store.remove("a");
    assert_eq!(keys(&store), vec!["d"]);
    assert_eq!(store.get("d").map(|e| e.value.clone()), Some("d".to_string()));
}

#[test]
fn remove_absent_key_changes_nothing() {
    let mut store = Store::new();
    store.insert("a".to_string(), entry("1"));
    assert!(store.remove("zzz").is_none());
    assert_eq!(keys(&store), vec!["a"]);
}

#[test]
fn sample_is_a_prefix_of_keys() {
    let mut store = Store::new();
    for name in ["a", "b", "c"] {
        store.insert(name.to_string(), entry(name));
    }
    assert!(store.sample(0).is_empty());
    assert_eq!(store.sample(2), vec!["a", "b"]);
    assert_eq!(store.sample(3), vec!["a", "b", "c"]);
    assert_eq!(store.sample(usize::MAX), vec!["a", "b", "c"]);
}

#[test]
fn many_inserts_and_removes_stay_consistent() {
    let mut store = Store::new();
    for i in 0..200 {
        store.insert(format!("k{}", i), entry(&format!("v{}", i)));
    }
    for i in (0..200).step_by(2) {
        assert!(store.remove(&format!("k{}", i)).is_some());
    }
    assert_eq!(store.len(), 100);
    for i in 0..200 {
        let found = store.get(&format!("k{}", i)).map(|e| e.value.clone());
        if i % 2 == 0 {
            assert_eq!(found, None);
        } else {
            assert_eq!(found, Some(format!("v{}", i)));
        }
    }
    let mut listed = store.keys();
    listed.sort();
    listed.dedup();
    assert_eq!(listed.len(), 100);
}

#[test]
fn keys_with_non_ascii_text() {
    let mut store = Store::new();
    store.insert("clé".to_string(), entry("valeur"));
    store.insert("鍵".to_string(), entry("値"));
    assert_eq!(store.get("鍵").map(|e| e.value.clone()), Some("値".to_string()));
    store.remove("clé");
    assert_eq!(keys(&store), vec!["鍵"]);
}
