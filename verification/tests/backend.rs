use inmem_cache::{Cache, CacheError, CacheWrite, InMemCache};

fn sealed_writer(payload: &[u8]) -> CacheWrite {
    let mut w = CacheWrite::new();
    w.write_bytes(payload);
    w.complete();
    w
}

fn hit_payload(c: &InMemCache, key: &str) -> Vec<u8> {
    match c.get(key).unwrap() {
        Cache::Hit(cr) => cr.payload(),
        Cache::Miss => panic!("expected a hit for key {key}"),
    }
}

#[test]
fn unwritten_keys_miss() {
    let c = InMemCache::new(None);
    assert!(matches!(c.get("a").unwrap(), Cache::Miss));
    c.put("a", sealed_writer(&[1u8])).unwrap();
    assert!(matches!(c.get("b").unwrap(), Cache::Miss));
    assert!(matches!(c.get("aa").unwrap(), Cache::Miss));
}

#[test]
fn put_then_get_round_trip() {
    // New store, no capacity configured.
    let c = InMemCache::new(None);
    assert!(matches!(c.get("a").unwrap(), Cache::Miss));
    c.put("a", sealed_writer(&[1u8, 2, 3, 4, 5])).unwrap();
    let finalized = sealed_writer(&[1u8, 2, 3, 4, 5]).finish().unwrap();
    match c.get("a").unwrap() {
        Cache::Hit(cr) => {
            // The hit carries exactly the finalized form of the blob.
            assert_eq!(*cr.bytes(), finalized);
            assert_eq!(cr.payload(), vec![1u8, 2, 3, 4, 5]);
        }
        Cache::Miss => panic!("expected a hit"),
    }
    assert_eq!(c.current_size(), Some(5));
}

#[test]
fn overwrite_last_write_wins() {
    let c = InMemCache::new(None);
    c.put("a", sealed_writer(&[1u8, 2, 3, 4, 5])).unwrap();
    c.put("a", sealed_writer(&[9u8, 8, 7])).unwrap();
    assert_eq!(c.current_size(), Some(3));
    assert_eq!(hit_payload(&c, "a"), vec![9u8, 8, 7]);
}

#[test]
fn distinct_puts_accumulate_sizes() {
    let c = InMemCache::new(None);
    c.put("x", sealed_writer(&[1u8, 2])).unwrap();
    c.put("y", sealed_writer(&[3u8, 4, 5])).unwrap();
    c.put("z", sealed_writer(&[6u8, 7, 8, 9])).unwrap();
    assert_eq!(c.current_size(), Some(9));
    assert_eq!(hit_payload(&c, "x"), vec![1u8, 2]);
    assert_eq!(hit_payload(&c, "y"), vec![3u8, 4, 5]);
    assert_eq!(hit_payload(&c, "z"), vec![6u8, 7, 8, 9]);
}

#[test]
fn location_is_always_memory() {
    let c = InMemCache::new(None);
    assert_eq!(c.location(), "memory");
    c.put("a", sealed_writer(&[1u8])).unwrap();
    assert_eq!(c.location(), "memory");
    let bounded = InMemCache::new(Some(64));
    assert_eq!(bounded.location(), "memory");
}

#[test]
fn max_size_never_changes() {
    let c = InMemCache::new(Some(7));
    assert_eq!(c.max_size(), Some(7));
    c.put("a", sealed_writer(&[1u8, 2, 3])).unwrap();
    c.put("b", sealed_writer(&[4u8, 5, 6, 7, 8, 9, 10, 11])).unwrap();
    assert_eq!(c.max_size(), Some(7));

    let unbounded = InMemCache::new(None);
    unbounded.put("a", sealed_writer(&[1u8])).unwrap();
    assert_eq!(unbounded.max_size(), None);
}

#[test]
fn clones_share_one_store() {
    let c1 = InMemCache::new(None);
    let c2 = c1.clone();
    let c3 = c1.clone();
    c1.put("from-first", sealed_writer(&[1u8, 1])).unwrap();
    c2.put("from-second", sealed_writer(&[2u8, 2, 2])).unwrap();
    c3.put("from-third", sealed_writer(&[3u8])).unwrap();
    assert_eq!(hit_payload(&c1, "from-second"), vec![2u8, 2, 2]);
    assert_eq!(hit_payload(&c2, "from-third"), vec![3u8]);
    assert_eq!(hit_payload(&c3, "from-first"), vec![1u8, 1]);
    assert_eq!(c1.current_size(), Some(6));
    assert_eq!(c2.current_size(), Some(6));
}

#[test]
fn capacity_is_advisory_only() {
    // Capacity of 100 bytes, ten puts of 20 bytes each: the limit is advisory
    // metadata, so every put is accepted and the store grows past it.
    let c = InMemCache::new(Some(100));
    let payload = [7u8; 20];
    for i in 0..10 {
        let key = format!("key-{i}");
        c.put(&key, sealed_writer(&payload)).unwrap();
    }
    assert_eq!(c.current_size(), Some(200));
    assert_eq!(c.max_size(), Some(100));
    for i in 0..10 {
        let key = format!("key-{i}");
        assert_eq!(hit_payload(&c, &key), payload.to_vec());
    }
}

#[test]
fn incomplete_put_is_rejected_and_ignored() {
    let c = InMemCache::new(None);
    let mut w = CacheWrite::new();
    w.write_bytes(&[1u8, 2, 3]);
    let r = c.put("a", w);
    assert_eq!(r.unwrap_err(), CacheError::IncompleteWrite);
    assert!(matches!(c.get("a").unwrap(), Cache::Miss));
    assert_eq!(c.current_size(), Some(0));
}

#[test]
fn put_reports_elapsed_time() {
    let c = InMemCache::new(None);
    let elapsed = c.put("a", sealed_writer(&[1u8])).unwrap();
    let zero = std::time::Duration::from_secs(0);
    assert!(elapsed >= zero);
}
