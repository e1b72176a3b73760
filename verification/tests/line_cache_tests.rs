use ferrite::line_cache::{hash_content, CacheKey, LineCache, MAX_CACHE_ENTRIES};

fn test_key(content: &str) -> CacheKey {
    CacheKey::from_content_hash(hash_content(content))
}

fn order_of(cache: &LineCache<u32>) -> Vec<u64> {
    cache.lru_keys().iter().copied().collect()
}

#[test]
fn test_new_cache() {
    let cache: LineCache<u32> = LineCache::new();
    assert_eq!(cache.len(), 0);
    assert!(cache.is_empty());
}

#[test]
fn test_default_cache() {
    let cache: LineCache<u32> = LineCache::default();
    assert_eq!(cache.len(), 0);
}

#[test]
fn test_capacity() {
    assert_eq!(LineCache::<u32>::capacity(), 200);
}

#[test]
fn test_hash_content_deterministic() {
    let hash1 = hash_content("Hello, World!");
    let hash2 = hash_content("Hello, World!");
    assert_eq!(hash1, hash2);
}

#[test]
fn test_hash_content_different() {
    let hash1 = hash_content("Hello");
    let hash2 = hash_content("World");
    assert_ne!(hash1, hash2);
}

#[test]
fn test_cache_key_equality() {
    let key1 = test_key("test");
    let key2 = test_key("test");
    assert_eq!(key1, key2);
}

#[test]
fn test_cache_key_different_content() {
    let key1 = test_key("hello");
    let key2 = test_key("world");
    assert_ne!(key1, key2);
}

#[test]
fn test_invalidate() {
    let mut cache: LineCache<u32> = LineCache::new();
    let key = test_key("test line");
    cache.update_lru_order(key);
    assert_eq!(cache.lru_keys().len(), 1);

    cache.invalidate();
    assert!(cache.is_empty());
    assert!(cache.lru_keys().is_empty());
}

#[test]
fn test_invalidate_empty_cache() {
    let mut cache: LineCache<u32> = LineCache::new();
    cache.invalidate();
    assert!(cache.is_empty());
}

#[test]
fn test_lru_eviction_ordering() {
    let mut cache: LineCache<u32> = LineCache::new();
    for i in 0..MAX_CACHE_ENTRIES {
        let content = format!("line {i}");
        cache.update_lru_order(test_key(&content));
    }

    assert_eq!(cache.lru_keys().len(), MAX_CACHE_ENTRIES);

    let first_key = test_key("line 0");
    assert_eq!(cache.lru_keys().front(), Some(&first_key.0));

    let last_key = test_key(&format!("line {}", MAX_CACHE_ENTRIES - 1));
    assert_eq!(cache.lru_keys().back(), Some(&last_key.0));
}

#[test]
fn test_update_lru_order() {
    let mut cache: LineCache<u32> = LineCache::new();
    let key1 = test_key("line 1");
    let key2 = test_key("line 2");
    let key3 = test_key("line 3");

    cache.update_lru_order(key1);
    cache.update_lru_order(key2);
    cache.update_lru_order(key3);

    cache.update_lru_order(key1);

    assert_eq!(cache.lru_keys().front(), Some(&key2.0));
    assert_eq!(cache.lru_keys().back(), Some(&key1.0));
    assert_eq!(order_of(&cache), vec![key2.0, key3.0, key1.0]);
}

#[test]
fn test_update_lru_order_nonexistent() {
    let mut cache: LineCache<u32> = LineCache::new();
    let key1 = test_key("line 1");
    cache.update_lru_order(key1);

    let key2 = test_key("line 2");
    cache.update_lru_order(key2);

    assert_eq!(cache.lru_keys().len(), 2);
    assert_eq!(cache.lru_keys().back(), Some(&key2.0));
}

#[test]
fn test_invalidate_line() {
    let mut cache: LineCache<u32> = LineCache::new();
    let key1 = test_key("line 1");
    let key2 = test_key("line 2");
    cache.insert(key1, 1);
    cache.insert(key2, 2);

    cache.invalidate_key(test_key("line 1"));

    assert_eq!(cache.lru_keys().len(), 1);
    assert_eq!(cache.lru_keys().front(), Some(&key2.0));
    assert!(!cache.contains(key1));
    assert_eq!(cache.get(key2), Some(&2));
}

#[test]
fn test_is_cached() {
    let cache: LineCache<u32> = LineCache::new();
    assert!(!cache.contains(test_key("test")));
}

#[test]
fn line_cache_test_unicode_content() {
    let hash1 = hash_content("こんにちは");
    let hash2 = hash_content("こんにちは");
    assert_eq!(hash1, hash2);

    let hash3 = hash_content("世界");
    assert_ne!(hash1, hash3);
}

#[test]
fn test_emoji_content() {
    let hash1 = hash_content("Hello 🌍 World");
    let hash2 = hash_content("Hello 🌍 World");
    assert_eq!(hash1, hash2);

    let hash3 = hash_content("Hello 🌎 World");
    assert_ne!(hash1, hash3);
}

#[test]
fn test_empty_line() {
    let hash1 = hash_content("");
    let hash2 = hash_content("");
    assert_eq!(hash1, hash2);

    let hash3 = hash_content(" ");
    assert_ne!(hash1, hash3);
}

#[test]
fn test_whitespace_sensitivity() {
    let hash1 = hash_content("test");
    let hash2 = hash_content(" test");
    let hash3 = hash_content("test ");
    let hash4 = hash_content("  test  ");

    assert_ne!(hash1, hash2);
    assert_ne!(hash1, hash3);
    assert_ne!(hash1, hash4);
    assert_ne!(hash2, hash3);
}

#[test]
fn test_lru_eviction_201_entries() {
    let mut cache: LineCache<u32> = LineCache::new();
    for i in 0..200u32 {
        let content = format!("line {i}");
        cache.insert(test_key(&content), i);
    }

    assert_eq!(cache.lru_keys().len(), 200);
    assert_eq!(cache.len(), 200);

    let first_key = test_key("line 0");
    assert_eq!(cache.lru_keys().front(), Some(&first_key.0));

    // The 201st entry evicts the least recently used one, "line 0".
    let key_201 = test_key("line 200");
    cache.insert(key_201, 200);

    assert_eq!(cache.lru_keys().len(), 200);
    assert_eq!(cache.len(), 200);

    let old_first_key = test_key("line 0");
    assert!(!cache.lru_keys().contains(&old_first_key.0));
    assert!(!cache.contains(old_first_key));

    let new_first_key = test_key("line 1");
    assert_eq!(cache.lru_keys().front(), Some(&new_first_key.0));

    assert_eq!(cache.lru_keys().back(), Some(&key_201.0));
    assert_eq!(cache.get(key_201), Some(&200));
}

#[test]
fn test_insert_overwrites_and_refreshes() {
    let mut cache: LineCache<u32> = LineCache::new();
    let a = test_key("a");
    let b = test_key("b");
    cache.insert(a, 1);
    cache.insert(b, 2);
    cache.update_lru_order(a);
    assert_eq!(order_of(&cache), vec![b.0, a.0]);
    assert_eq!(cache.get(a), Some(&1));
    assert_eq!(cache.len(), 2);
}

#[test]
fn test_cache_never_exceeds_capacity() {
    let mut cache: LineCache<u32> = LineCache::new();
    for i in 0..500u32 {
        cache.insert(test_key(&format!("row {i}")), i);
        assert!(cache.len() <= MAX_CACHE_ENTRIES);
    }
    assert_eq!(cache.len(), MAX_CACHE_ENTRIES);
    // The most recent insert is always readable.
    assert_eq!(cache.get(test_key("row 499")), Some(&499));
    assert!(!cache.contains(test_key("row 0")));
}

#[test]
fn test_ensure_cached_hit_and_miss() {
    let mut cache: LineCache<u32> = LineCache::new();
    let a = test_key("alpha");
    let b = test_key("beta");
    assert!(!cache.ensure_cached(a, || 1));
    assert!(!cache.ensure_cached(b, || 2));
    // A hit does not lay out again and refreshes the entry.
    assert!(cache.ensure_cached(a, || 99));
    assert_eq!(cache.get(a), Some(&1));
    assert_eq!(order_of(&cache), vec![b.0, a.0]);
}
