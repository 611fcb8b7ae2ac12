//! Tests of the TTL store and the memoizing wrapper, driven by an explicit
//! logical clock in milliseconds.

use memocache::Cache;
use memocache::CacheError;
use memocache::TtlStore;

#[derive(Debug, PartialEq)]
struct TestError;

fn canonical<T: serde::Serialize>(value: T) -> Result<String, String> {
    serde_json::to_string(&value).map_err(|e| e.to_string())
}

#[test]
fn ok_is_cached() {
    let mut cache = Cache::new();
    let duration = Some(1000u64);
    let result = cache.resolve(
        "key",
        duration,
        0,
        || Ok::<Vec<i32>, TestError>(vec![42]),
        canonical,
    );
    assert_eq!(result.unwrap(), canonical(vec![42]).unwrap());
    assert!(cache.store.contains("key", 0));
}

#[test]
fn err_is_not_cached() {
    let mut cache = Cache::new();
    let duration = Some(1000u64);
    let result = cache.resolve(
        "key",
        duration,
        0,
        || Err::<Vec<i32>, TestError>(TestError),
        canonical,
    );
    assert!(result.is_err());
    assert!(!cache.store.contains("key", 0));
}

#[test]
fn uses_cached_value() {
    let mut cache = Cache::new();
    let duration = Some(1000u64);
    let value = canonical(vec![42]).unwrap();
    cache.store.set("key", value, None, 0);
    let result = cache.resolve(
        "key",
        duration,
        0,
        || -> Result<Vec<i32>, TestError> { panic!("should use cached value") },
        canonical,
    );
    assert_eq!(result.unwrap(), canonical(vec![42]).unwrap());
}

#[test]
fn cache_expires_as_expected() {
    let mut cache = Cache::new();
    let duration = Some(125u64);
    let value = canonical(vec![42]).unwrap();
    cache.store.set("key", value, duration, 0);
    assert!(!cache.store.contains("key", 250));
}

#[test]
fn round_trip_before_expiry() {
    let mut store = TtlStore::new();
    store.set("books", "a shelf".to_string(), Some(500), 1000);
    assert_eq!(store.get("books", 1499), Some("a shelf".to_string()));
    assert!(store.contains("books", 1499));
}

#[test]
fn expiry_is_exclusive_of_the_boundary() {
    let mut store = TtlStore::new();
    store.set("key", "v".to_string(), Some(125), 0);
    assert_eq!(store.get("key", 124), Some("v".to_string()));
    assert_eq!(store.get("key", 125), None);
    assert!(!store.contains("key", 125));
}

#[test]
fn no_expiry_survives_arbitrary_waits() {
    let mut store = TtlStore::new();
    store.set("key", "v".to_string(), None, 0);
    assert_eq!(store.get("key", u64::MAX), Some("v".to_string()));
    assert!(store.contains("key", u64::MAX));
}

#[test]
fn zero_ttl_is_immediately_stale() {
    let mut store = TtlStore::new();
    store.set("key", "v".to_string(), Some(0), 7);
    assert_eq!(store.get("key", 7), None);
    assert!(!store.contains("key", 7));
}

#[test]
fn set_replaces_the_previous_entry() {
    let mut store = TtlStore::new();
    store.set("key", "old".to_string(), Some(100), 0);
    store.set("key", "new".to_string(), None, 50);
    assert_eq!(store.get("key", 60), Some("new".to_string()));
    assert_eq!(store.get("key", 100_000), Some("new".to_string()));
}

#[test]
fn a_set_after_expiry_refreshes_the_entry() {
    let mut store = TtlStore::new();
    store.set("key", "first".to_string(), Some(10), 0);
    assert_eq!(store.get("key", 10), None);
    store.set("key", "second".to_string(), Some(10), 20);
    assert_eq!(store.get("key", 25), Some("second".to_string()));
}

#[test]
fn keys_are_independent() {
    let mut store = TtlStore::new();
    store.set("books", "b".to_string(), Some(100), 0);
    store.set("tracks", "t".to_string(), None, 0);
    assert!(!store.contains("books", 100));
    assert!(store.contains("tracks", 100));
    assert_eq!(store.get("tracks", 100), Some("t".to_string()));
}

#[test]
fn get_of_an_absent_key_is_none() {
    let store = TtlStore::new();
    assert_eq!(store.get("missing", 0), None);
    assert!(!store.contains("missing", 0));
}

#[test]
fn contains_agrees_with_get() {
    let mut store = TtlStore::new();
    store.set("a", "1".to_string(), Some(10), 0);
    store.set("b", "2".to_string(), None, 0);
    for key in ["a", "b", "c"] {
        for now in [0u64, 5, 10, 1000] {
            assert_eq!(store.contains(key, now), store.get(key, now).is_some());
        }
    }
}

#[test]
fn resolved_value_decodes_to_the_produced_one() {
    let mut cache = Cache::new();
    let result = cache.resolve(
        "key",
        Some(1000),
        0,
        || Ok::<Vec<i32>, TestError>(vec![42]),
        canonical,
    );
    assert!(result.is_ok());
    let read_back = cache.store.get("key", 500).expect("entry should be present");
    let decoded: Vec<i32> = serde_json::from_str(&read_back).unwrap();
    assert_eq!(decoded, vec![42]);
}

#[test]
fn producer_error_is_passed_through_unchanged() {
    let mut cache = Cache::new();
    let result = cache.resolve(
        "key",
        Some(1000),
        0,
        || Err::<Vec<i32>, TestError>(TestError),
        canonical,
    );
    match result {
        Err(CacheError::Inner(e)) => assert_eq!(e, TestError),
        other => panic!("expected the producer's own error, got {:?}", other),
    }
}

#[test]
fn serialization_error_is_tagged_and_not_cached() {
    let mut cache = Cache::new();
    let result = cache.resolve(
        "key",
        Some(1000),
        0,
        || Ok::<Vec<i32>, TestError>(vec![42]),
        |_| Err::<String, String>("not canonicalizable".to_string()),
    );
    match result {
        Err(CacheError::Serde(msg)) => assert_eq!(msg, "not canonicalizable"),
        other => panic!("expected a serialization error, got {:?}", other),
    }
    assert!(!cache.store.contains("key", 0));
}

#[test]
fn resolve_commit_writes_only_on_success() {
    let mut cache = Cache::new();

    let r = cache.resolve_commit::<TestError, String>("key", Some(100), 0, Err(TestError));
    assert!(matches!(r, Err(CacheError::Inner(TestError))));
    assert!(!cache.store.contains("key", 0));

    let r = cache.resolve_commit::<TestError, String>("key", Some(100), 0, Ok(Err("bad".to_string())));
    assert!(matches!(r, Err(CacheError::Serde(_))));
    assert!(!cache.store.contains("key", 0));

    let r = cache.resolve_commit::<TestError, String>("key", Some(100), 0, Ok(Ok("[1]".to_string())));
    assert_eq!(r.unwrap(), "[1]".to_string());
    assert!(cache.store.contains("key", 50));
    assert!(!cache.store.contains("key", 100));
}

#[test]
fn a_default_cache_is_empty() {
    let cache = Cache::default();
    assert!(!cache.store.contains("books", 0));
    assert!(!cache.store.contains("commits", 0));
    assert!(!cache.store.contains("tracks", 0));
}
