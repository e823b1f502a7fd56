use trie_cache::shard_cache::ShardCache;

fn bytes(n: usize, fill: u8) -> Vec<u8> {
    vec![fill; n]
}

#[test]
fn put_then_get_returns_same_bytes() {
    let mut c = ShardCache::new(3, false, 100);
    c.put(7, vec![1, 2, 3]);
    assert_eq!(c.get(7), Some(vec![1, 2, 3]));
    assert_eq!(c.total_bytes(), 3);
    assert_eq!(c.len(), 1);
    assert_eq!(c.metrics().hits, 1);
    assert_eq!(c.metrics().misses, 0);
}

#[test]
fn get_of_absent_key_counts_a_miss() {
    let mut c = ShardCache::new(0, true, 10);
    assert_eq!(c.get(1), None);
    assert_eq!(c.metrics().misses, 1);
    assert_eq!(c.metrics().hits, 0);
    assert!(c.is_view());
    assert_eq!(c.shard_id(), 0);
    assert_eq!(c.capacity(), 10);
}

#[test]
fn total_bytes_never_exceed_capacity() {
    let mut c = ShardCache::new(1, false, 10);
    for k in 0..20u64 {
        c.put(k, bytes((k % 7) as usize + 1, k as u8));
        assert!(c.total_bytes() <= c.capacity());
        if k % 3 == 0 {
            let _ = c.pop(k / 2);
            assert!(c.total_bytes() <= c.capacity());
        }
    }
}

#[test]
fn lru_evicts_first_inserted() {
    // Room for exactly three values of four bytes.
    let mut c = ShardCache::new(1, false, 12);
    for k in 1..=4u64 {
        c.put(k, bytes(4, k as u8));
    }
    assert!(!c.contains(1));
    assert!(c.contains(2));
    assert!(c.contains(3));
    assert!(c.contains(4));
    assert_eq!(c.metrics().lru_pops, 1);
    assert_eq!(c.metrics().evicted_bytes, 4);
    assert_eq!(c.total_bytes(), 12);
}

#[test]
fn lru_refresh_evicts_second_oldest() {
    let mut c = ShardCache::new(1, false, 12);
    for k in 1..=3u64 {
        c.put(k, bytes(4, k as u8));
    }
    assert_eq!(c.get(1), Some(bytes(4, 1)));
    c.put(4, bytes(4, 4));
    assert!(c.contains(1));
    assert!(!c.contains(2));
    assert!(c.contains(3));
    assert!(c.contains(4));
}

#[test]
fn put_evicts_several_entries_for_a_large_value() {
    let mut c = ShardCache::new(1, false, 10);
    c.put(1, bytes(3, 1));
    c.put(2, bytes(3, 2));
    c.put(3, bytes(3, 3));
    c.put(4, bytes(8, 4));
    assert!(!c.contains(1));
    assert!(!c.contains(2));
    assert!(!c.contains(3));
    assert!(c.contains(4));
    assert_eq!(c.metrics().lru_pops, 3);
    assert_eq!(c.metrics().evicted_bytes, 9);
    assert_eq!(c.total_bytes(), 8);
}

#[test]
fn oversized_put_is_refused() {
    let mut c = ShardCache::new(1, false, 5);
    c.put(1, bytes(2, 1));
    c.put(2, bytes(6, 2));
    assert!(c.contains(1));
    assert!(!c.contains(2));
    assert_eq!(c.metrics().too_large, 1);
    assert_eq!(c.metrics().lru_pops, 0);
    assert_eq!(c.total_bytes(), 2);
    assert_eq!(c.len(), 1);
}

#[test]
fn value_as_large_as_capacity_fits() {
    let mut c = ShardCache::new(1, false, 5);
    c.put(1, bytes(2, 1));
    c.put(2, bytes(5, 2));
    assert!(!c.contains(1));
    assert_eq!(c.get(2), Some(bytes(5, 2)));
    assert_eq!(c.metrics().too_large, 0);
}

#[test]
fn pop_present_key_returns_value_and_frees_bytes() {
    let mut c = ShardCache::new(1, false, 100);
    c.put(1, vec![9, 9, 9]);
    c.put(2, vec![8]);
    assert_eq!(c.pop(1), Some(vec![9, 9, 9]));
    assert_eq!(c.total_bytes(), 1);
    assert_eq!(c.metrics().pop_hits, 1);
    assert_eq!(c.metrics().deleted_bytes, 3);
    assert!(!c.contains(1));
}

#[test]
fn pop_absent_key_changes_nothing_but_the_miss_count() {
    let mut c = ShardCache::new(1, false, 100);
    c.put(2, vec![8, 8]);
    assert_eq!(c.pop(1), None);
    assert_eq!(c.total_bytes(), 2);
    assert_eq!(c.len(), 1);
    assert_eq!(c.metrics().pop_misses, 1);
    assert_eq!(c.metrics().deleted_bytes, 0);
}

#[test]
fn put_of_cached_key_replaces_its_entry() {
    let mut c = ShardCache::new(1, false, 10);
    c.put(1, vec![1, 1]);
    c.put(2, vec![2, 2]);
    c.put(1, vec![3, 3, 3]);
    assert_eq!(c.len(), 2);
    assert_eq!(c.total_bytes(), 5);
    assert_eq!(c.get(1), Some(vec![3, 3, 3]));
    assert_eq!(c.metrics().lru_pops, 0);
}

#[test]
fn empty_value_is_cached() {
    let mut c = ShardCache::new(1, false, 0);
    c.put(1, Vec::new());
    assert_eq!(c.get(1), Some(Vec::new()));
    assert_eq!(c.total_bytes(), 0);
}
