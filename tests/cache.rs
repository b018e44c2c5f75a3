use schedule_worker::{
    accept_config_blob, cached_config, clear_config_cache, config_key, get_cached_schedule,
    store_schedule_in_cache, ConfigError, TtlCache, CONFIG_DISPLAY, CONFIG_STYLING,
};

#[test]
fn put_then_get_within_ttl_returns_value() {
    let mut cache = TtlCache::new();
    cache.put("2024-03".to_string(), "{\"a\":1}".to_string(), 1_000);
    assert_eq!(cache.get("2024-03", 1_059, 60), Some("{\"a\":1}".to_string()));
    assert!(cache.contains_key("2024-03"));
}

#[test]
fn stale_entry_is_missed_and_purged() {
    let mut cache = TtlCache::new();
    cache.put("2024-03".to_string(), "payload".to_string(), 1_000);
    assert_eq!(cache.get("2024-03", 1_060, 60), None);
    assert!(!cache.contains_key("2024-03"));
}

#[test]
fn zero_ttl_never_serves_but_still_stores() {
    let mut cache = TtlCache::new();
    cache.put("k".to_string(), "v".to_string(), 100);
    assert_eq!(cache.get("k", 100, 0), None);
    assert!(cache.contains_key("k"));
    assert_eq!(cache.get("k", 101, 10), Some("v".to_string()));
}

#[test]
fn put_overwrites_and_refreshes() {
    let mut cache = TtlCache::new();
    cache.put("k".to_string(), "old".to_string(), 0);
    cache.put("other".to_string(), "x".to_string(), 0);
    cache.put("k".to_string(), "new".to_string(), 500);
    assert_eq!(cache.get("k", 510, 60), Some("new".to_string()));
    assert_eq!(cache.get("other", 510, 60), None);
    assert!(cache.contains_key("k"));
    assert!(!cache.contains_key("other"));
}

#[test]
fn missing_key_is_a_miss() {
    let mut cache = TtlCache::new();
    assert_eq!(cache.get("nope", 0, 60), None);
}

#[test]
fn peek_does_not_evict_or_serve_future_entries() {
    let mut cache = TtlCache::new();
    cache.put("k".to_string(), "v".to_string(), 100);
    assert_eq!(cache.peek_fresh("k", 150, 60), Some("v".to_string()));
    assert_eq!(cache.peek_fresh("k", 160, 60), None);
    assert_eq!(cache.peek_fresh("k", 99, 60), None);
    assert!(cache.contains_key("k"));
    cache.clear();
    assert!(!cache.contains_key("k"));
}

#[test]
fn schedule_cache_round_trip_with_clock() {
    let mut cache = TtlCache::new();
    store_schedule_in_cache(&mut cache, "2024-05", "grid".to_string());
    assert_eq!(get_cached_schedule(&mut cache, "2024-05", 900), Some("grid".to_string()));
    assert_eq!(get_cached_schedule(&mut cache, "2024-05", 0), None);
    assert_eq!(get_cached_schedule(&mut cache, "2024-06", 900), None);
}

#[test]
fn config_blob_handling() {
    let mut cache = TtlCache::new();
    assert_eq!(accept_config_blob(&mut cache, CONFIG_DISPLAY, None).ok(), Some("{}".to_string()));
    assert!(!cache.contains_key(CONFIG_DISPLAY));
    assert!(matches!(
        accept_config_blob(&mut cache, CONFIG_DISPLAY, Some("{not json".to_string())),
        Err(ConfigError::InvalidJson)
    ));
    assert!(!cache.contains_key(CONFIG_DISPLAY));
    let doc = "{\"aliases\":{\"ratm\":\"RAT\"}}".to_string();
    assert_eq!(accept_config_blob(&mut cache, CONFIG_DISPLAY, Some(doc.clone())).ok(), Some(doc.clone()));
    assert_eq!(cached_config(&cache, CONFIG_DISPLAY, 300), Some(doc));
    assert_eq!(cached_config(&cache, CONFIG_DISPLAY, 0), None);
    clear_config_cache(&mut cache);
    assert_eq!(cached_config(&cache, CONFIG_DISPLAY, 300), None);
}

#[test]
fn config_names_map_to_blob_keys() {
    assert_eq!(config_key("shift-display"), Some(CONFIG_DISPLAY));
    assert_eq!(config_key("shift-styling"), Some(CONFIG_STYLING));
    assert_eq!(config_key("other"), None);
}
