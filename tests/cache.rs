use smartgallery::cache::BoundedCache;

#[test]
fn test_cache_basic() {
    let mut cache = BoundedCache::new(2, 300);
    cache.set("key1".to_string(), "value1".to_string());
    assert_eq!(cache.get(&"key1".to_string()), Some(&"value1".to_string()));
}

#[test]
fn test_cache_eviction() {
    let mut cache = BoundedCache::new(2, 300);
    cache.set("key1".to_string(), "value1".to_string());
    cache.set("key2".to_string(), "value2".to_string());
    cache.set("key3".to_string(), "value3".to_string());

    assert_eq!(cache.len(), 2);
    assert_eq!(cache.get(&"key1".to_string()), None);
    assert_eq!(cache.get(&"key2".to_string()), Some(&"value2".to_string()));
    assert_eq!(cache.get(&"key3".to_string()), Some(&"value3".to_string()));
}

#[test]
fn test_cache_lru() {
    let mut cache = BoundedCache::new(2, 300);
    cache.set("key1".to_string(), "value1".to_string());
    cache.set("key2".to_string(), "value2".to_string());

    cache.get(&"key1".to_string());

    cache.set("key3".to_string(), "value3".to_string());

    assert_eq!(cache.get(&"key1".to_string()), Some(&"value1".to_string()));
    assert_eq!(cache.get(&"key2".to_string()), None);
    assert_eq!(cache.get(&"key3".to_string()), Some(&"value3".to_string()));
}

#[test]
fn cache_entries_expire_after_ttl() {
    let mut cache = BoundedCache::new(10, 1);
    cache.set_at("key1".to_string(), "value1".to_string(), 0);

    assert_eq!(cache.get_at(&"key1".to_string(), 500_000_000), Some(&"value1".to_string()));

    assert_eq!(cache.get_at(&"key1".to_string(), 2_000_000_000), None);
}

#[test]
fn test_cache_stats() {
    let mut cache = BoundedCache::new(10, 300);
    cache.set("key1".to_string(), "value1".to_string());
    cache.set("key2".to_string(), "value2".to_string());

    cache.get(&"key1".to_string());
    cache.get(&"key1".to_string());
    cache.get(&"key2".to_string());

    let stats = cache.get_stats();
    assert_eq!(stats.size, 2);
    assert_eq!(stats.max_size, 10);
    assert_eq!(stats.total_accesses, 3);
}

#[test]
fn test_cache_clear() {
    let mut cache = BoundedCache::new(10, 300);
    cache.set("key1".to_string(), "value1".to_string());
    cache.set("key2".to_string(), "value2".to_string());

    assert_eq!(cache.len(), 2);
    cache.clear();
    assert_eq!(cache.len(), 0);
}

#[test]
fn cache_replacing_a_key_keeps_one_entry() {
    let mut cache = BoundedCache::new(2, 300);
    cache.set_at("k".to_string(), 1u32, 10);
    cache.set_at("k".to_string(), 2u32, 20);
    assert_eq!(cache.len(), 1);
    assert_eq!(cache.get_at(&"k".to_string(), 30), Some(&2));
}

#[test]
fn cache_lru_tie_drops_the_first_entry() {
    let mut cache = BoundedCache::new(2, 300);
    cache.set_at("a".to_string(), 1u32, 5);
    cache.set_at("b".to_string(), 2u32, 5);
    cache.set_at("c".to_string(), 3u32, 6);
    assert_eq!(cache.get_at(&"a".to_string(), 7), None);
    assert_eq!(cache.get_at(&"b".to_string(), 7), Some(&2));
    assert_eq!(cache.get_at(&"c".to_string(), 7), Some(&3));
}

#[test]
fn cache_remove_and_empty() {
    let mut cache = BoundedCache::new(4, 300);
    assert!(cache.is_empty());
    cache.set_at("a".to_string(), 9u32, 0);
    assert_eq!(cache.remove(&"a".to_string()), Some(9));
    assert_eq!(cache.remove(&"a".to_string()), None);
    assert!(cache.is_empty());
}

#[test]
fn cache_stats_mean_age_in_seconds() {
    let mut cache = BoundedCache::new(4, 300);
    cache.set_at("a".to_string(), 1u32, 0);
    cache.set_at("b".to_string(), 2u32, 2_000_000_000);
    cache.get_at(&"a".to_string(), 3_000_000_000);
    let stats = cache.get_stats_at(4_000_000_000);
    assert_eq!(stats.size, 2);
    assert_eq!(stats.total_accesses, 1);
    assert_eq!(stats.avg_age_seconds, 3);
}

#[test]
fn cache_zero_capacity_still_stores_the_newest() {
    let mut cache = BoundedCache::new(0, 300);
    cache.set_at("a".to_string(), 1u32, 0);
    assert_eq!(cache.len(), 1);
    cache.set_at("b".to_string(), 2u32, 1);
    assert_eq!(cache.len(), 1);
    assert_eq!(cache.get_at(&"b".to_string(), 2), Some(&2));
}
