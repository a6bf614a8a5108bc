use inmem_cache::{CacheWrite, InMemCacheStore};

fn blob_of(payload: &[u8]) -> Vec<u8> {
    let mut w = CacheWrite::new();
    w.write_bytes(payload);
    w.complete();
    w.finish().unwrap()
}

#[test]
fn new_store_is_empty() {
    let s = InMemCacheStore::new();
    assert_eq!(s.size_bytes(), 0);
    assert!(s.lookup("anything").is_none());
}

#[test]
fn insert_then_lookup() {
    let mut s = InMemCacheStore::new();
    let blob = blob_of(&[10u8, 20, 30]);
    let copy = blob.clone();
    s.insert("k", blob).unwrap();
    assert_eq!(s.lookup("k").unwrap(), copy);
    assert_eq!(s.size_bytes(), 3);
    assert!(s.lookup("other").is_none());
}

#[test]
fn overwrite_replaces_and_reaccounts() {
    let mut s = InMemCacheStore::new();
    s.insert("k", blob_of(&[1u8, 2, 3, 4, 5])).unwrap();
    assert_eq!(s.size_bytes(), 5);
    let second = blob_of(&[8u8, 9, 10]);
    let copy = second.clone();
    s.insert("k", second).unwrap();
    assert_eq!(s.size_bytes(), 3);
    assert_eq!(s.lookup("k").unwrap(), copy);
}

#[test]
fn distinct_keys_accumulate_sizes() {
    let mut s = InMemCacheStore::new();
    s.insert("a", blob_of(&[1u8, 2])).unwrap();
    s.insert("b", blob_of(&[3u8, 4, 5])).unwrap();
    s.insert("c", blob_of(&[6u8, 7, 8, 9])).unwrap();
    assert_eq!(s.size_bytes(), 9);
    assert_eq!(s.lookup("a").unwrap(), blob_of(&[1u8, 2]));
    assert_eq!(s.lookup("b").unwrap(), blob_of(&[3u8, 4, 5]));
    assert_eq!(s.lookup("c").unwrap(), blob_of(&[6u8, 7, 8, 9]));
}

#[test]
fn empty_payload_entry_counts_zero() {
    let mut s = InMemCacheStore::new();
    let mut w = CacheWrite::new();
    w.complete();
    s.insert("empty", w.finish().unwrap()).unwrap();
    assert_eq!(s.size_bytes(), 0);
    assert!(s.lookup("empty").is_some());
}
