use image_viewer::cache::CacheStore;
use image_viewer::entry::CacheEntry;

fn tiny_entry() -> CacheEntry {
    CacheEntry::new(vec![0u8; 4], 1, 1)
}

#[test]
fn put_then_get_returns_entry() {
    let mut store = CacheStore::new(100, 80);
    store.put(1, tiny_entry());
    assert!(store.contains(1));
    let got = store.get(1).unwrap();
    assert_eq!(got.width, 1);
    assert_eq!(got.height, 1);
    assert_eq!(got.rotation, 0);
    assert!(!store.contains(2));
    assert!(store.get(2).is_none());
}

#[test]
fn size_never_exceeds_capacity_and_settles_at_target() {
    let mut store = CacheStore::new(100, 80);
    for k in 0..100u64 {
        store.put(k, tiny_entry());
        assert!(store.len() <= 100);
    }
    assert_eq!(store.len(), 100);
    // the insert that pushes the store past its capacity settles it at the target
    store.put(100, tiny_entry());
    assert_eq!(store.len(), 80);
    // the freshly inserted key survives the batched eviction
    assert!(store.contains(100));
    // the least recently used keys were the ones cut off
    assert!(!store.contains(0));
    assert!(!store.contains(20));
    assert!(store.contains(21));
}

#[test]
fn get_marks_recency_for_eviction() {
    let mut store = CacheStore::new(3, 2);
    store.put(1, tiny_entry());
    store.put(2, tiny_entry());
    store.put(3, tiny_entry());
    // touch the oldest so that it survives the next eviction
    store.get(1);
    store.put(4, tiny_entry());
    assert_eq!(store.len(), 2);
    assert!(store.contains(4));
    assert!(store.contains(1));
    assert!(!store.contains(2));
    assert!(!store.contains(3));
}

#[test]
fn remove_deletes_entry() {
    let mut store = CacheStore::new(10, 5);
    store.put(1, tiny_entry());
    store.put(2, tiny_entry());
    store.remove(1);
    assert!(!store.contains(1));
    assert!(store.contains(2));
    assert_eq!(store.len(), 1);
    // removing an absent key changes nothing
    store.remove(9);
    assert_eq!(store.len(), 1);
}

#[test]
fn mutate_rotation_advances_and_clears_texture() {
    let mut store = CacheStore::new(10, 5);
    store.put(1, tiny_entry());
    store.attach_texture(1, 42);
    assert_eq!(store.get(1).unwrap().texture, Some(42));
    store.mutate_rotation(1);
    let e = store.get(1).unwrap();
    assert_eq!(e.rotation, 90);
    assert_eq!(e.texture, None);
    // four quarter turns return the rotation to its original value
    store.mutate_rotation(1);
    store.mutate_rotation(1);
    store.mutate_rotation(1);
    assert_eq!(store.get(1).unwrap().rotation, 0);
    // a miss is a no-op
    store.mutate_rotation(5);
    assert!(!store.contains(5));
}
