use seqtools::flatmap::FlatMap;
use seqtools::lru_cache::LRUCache;
use seqtools::min_queue::MinQueue;

#[test]
fn flatmap_insert_and_get() {
    let mut m: FlatMap<&str> = FlatMap::new();
    assert!(m.is_empty());
    assert_eq!(m.insert(3, "three"), None);
    assert_eq!(m.insert(1, "one"), None);
    assert_eq!(m.insert(2, "two"), None);
    assert_eq!(m.len(), 3);
    assert!(!m.is_empty());
    assert_eq!(m.get(&1), Some(&"one"));
    assert_eq!(m.get(&2), Some(&"two"));
    assert_eq!(m.get(&3), Some(&"three"));
    assert_eq!(m.get(&4), None);
}

#[test]
fn flatmap_keeps_entries_sorted() {
    let mut m: FlatMap<u64> = FlatMap::new();
    m.insert(5, 50);
    m.insert(1, 10);
    m.insert(3, 30);
    let keys: Vec<u64> = m.as_slice().iter().map(|e| e.0).collect();
    assert_eq!(keys, vec![1, 3, 5]);
}

#[test]
fn flatmap_insert_replaces_and_returns_old_value() {
    let mut m: FlatMap<u64> = FlatMap::new();
    assert_eq!(m.insert(7, 70), None);
    assert_eq!(m.insert(7, 71), Some(70));
    assert_eq!(m.len(), 1);
    assert_eq!(m.get(&7), Some(&71));
}

#[test]
fn flatmap_remove() {
    let mut m: FlatMap<u64> = FlatMap::new();
    m.insert(1, 10);
    m.insert(2, 20);
    assert_eq!(m.remove(&1), Some(10));
    assert_eq!(m.remove(&1), None);
    assert_eq!(m.len(), 1);
    assert_eq!(m.get(&2), Some(&20));
}

#[test]
fn flatmap_remove_entry() {
    let mut m: FlatMap<u64> = FlatMap::new();
    m.insert(9, 90);
    assert_eq!(m.remove_entry(&9), Some((9, 90)));
    assert_eq!(m.remove_entry(&9), None);
    assert!(m.is_empty());
}

#[test]
fn flatmap_capacity_is_at_least_len() {
    let mut m: FlatMap<u64> = FlatMap::new();
    for k in 0..10 {
        m.insert(k, k);
    }
    assert!(m.capacity() >= m.len());
}

#[test]
fn lru_evicts_least_recently_used() {
    let mut c: LRUCache<&str> = LRUCache::new(2);
    assert_eq!(c.insert(1, "one"), None);
    assert_eq!(c.insert(2, "two"), None);
    // Touch key 1 so key 2 becomes the least recently used.
    assert_eq!(c.get(&1), Some(&"one"));
    assert_eq!(c.insert(3, "three"), None);
    assert_eq!(c.get(&2), None);
    assert_eq!(c.get(&1), Some(&"one"));
    assert_eq!(c.get(&3), Some(&"three"));
}

#[test]
fn lru_insert_existing_returns_old_value() {
    let mut c: LRUCache<u64> = LRUCache::new(2);
    assert_eq!(c.insert(1, 10), None);
    assert_eq!(c.insert(1, 11), Some(10));
    assert_eq!(c.get(&1), Some(&11));
}

#[test]
fn lru_miss_changes_nothing() {
    let mut c: LRUCache<u64> = LRUCache::new(1);
    c.insert(1, 10);
    assert_eq!(c.get(&9), None);
    assert_eq!(c.get(&1), Some(&10));
}

#[test]
fn min_queue_tracks_minimum_across_pops() {
    let mut q = MinQueue::new();
    assert!(q.is_empty());
    assert_eq!(q.min(), None);
    q.push(3);
    q.push(1);
    q.push(2);
    assert_eq!(q.len(), 3);
    assert_eq!(q.min(), Some(&1));
    assert_eq!(q.front(), Some(&3));
    assert_eq!(q.pop(), Some(3));
    assert_eq!(q.min(), Some(&1));
    assert_eq!(q.pop(), Some(1));
    assert_eq!(q.min(), Some(&2));
    assert_eq!(q.pop(), Some(2));
    assert_eq!(q.pop(), None);
    assert!(q.is_empty());
}

#[test]
fn min_queue_interleaved_pushes_and_pops() {
    let mut q = MinQueue::new();
    q.push(5);
    q.push(-2);
    assert_eq!(q.pop(), Some(5));
    q.push(7);
    assert_eq!(q.min(), Some(&-2));
    assert_eq!(q.front(), Some(&-2));
    assert_eq!(q.pop(), Some(-2));
    assert_eq!(q.min(), Some(&7));
    assert_eq!(q.len(), 1);
}

#[test]
fn min_queue_default_is_empty() {
    let q = MinQueue::default();
    assert!(q.is_empty());
    assert_eq!(q.len(), 0);
}
