use genai_core::cache::AppCache;

#[test]
fn fresh_entry_is_returned() {
    let mut c = AppCache::with_ttl_millis(1_000);
    c.set_at("k".to_string(), "v".to_string(), 0);
    assert_eq!(c.get_at("k", 0), Some("v".to_string()));
    assert_eq!(c.get_at("k", 999), Some("v".to_string()));
}

#[test]
fn expired_entry_is_removed_and_hidden() {
    let mut c = AppCache::with_ttl_millis(1_000);
    c.set_at("k".to_string(), "v".to_string(), 0);
    assert_eq!(c.get_at("k", 1_000), None);
    // The expired entry was removed on that read: even an earlier clock
    // reading finds nothing afterwards.
    assert_eq!(c.get_at("k", 0), None);
}

#[test]
fn absent_key_reads_as_nothing() {
    let mut c = AppCache::with_ttl_millis(1_000);
    assert_eq!(c.get_at("missing", 0), None);
}

#[test]
fn overwrite_replaces_value_and_resets_clock() {
    let mut c = AppCache::with_ttl_millis(100);
    c.set_at("k".to_string(), "v1".to_string(), 0);
    c.set_at("k".to_string(), "v2".to_string(), 10);
    // The second value wins immediately...
    assert_eq!(c.get_at("k", 10), Some("v2".to_string()));
    // ...and freshness counts from the second set: at t=105 the entry is
    // 95 ms old, not 105 ms.
    assert_eq!(c.get_at("k", 105), Some("v2".to_string()));
    assert_eq!(c.get_at("k", 110), None);
}

#[test]
fn keys_are_isolated() {
    let mut c = AppCache::with_ttl_millis(100);
    c.set_at("k1".to_string(), "a".to_string(), 0);
    c.set_at("k2".to_string(), "b".to_string(), 0);
    // Reading k1 expired removes it, but k2 keeps its value and freshness.
    assert_eq!(c.get_at("k1", 100), None);
    assert_eq!(c.get_at("k2", 99), Some("b".to_string()));
    // Overwriting k1 leaves k2 alone too.
    c.set_at("k1".to_string(), "c".to_string(), 99);
    assert_eq!(c.get_at("k2", 99), Some("b".to_string()));
}

#[test]
fn default_ttl_serves_immediate_reads() {
    let mut c = AppCache::new();
    c.set("prompt".to_string(), "answer".to_string());
    assert_eq!(c.get("prompt"), Some("answer".to_string()));
    assert_eq!(c.get("other"), None);
}
