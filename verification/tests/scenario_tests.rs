use stable_fragmented_buffer::{Config, PinnedBlobStore};

#[test]
fn test_small_round_trip() {
    let config = Config {
        page_size: 65536,
        ..Default::default()
    };
    let mut store = PinnedBlobStore::new(config).unwrap();
    let payload = b"Hello, World!";
    let handle = store.append(payload).unwrap();
    assert_eq!(handle.page_id(), 0);
    assert_eq!(handle.end_page_id(), 0);
    assert_eq!(handle.size(), 13);
    assert_eq!(handle.total_size(), 13);
    assert_eq!(handle.generation(), 0);
    assert_eq!(store.get(&handle).unwrap(), payload);
}

#[test]
fn test_page_rotation() {
    let config = Config {
        page_size: 1024,
        ..Default::default()
    };
    let mut store = PinnedBlobStore::new(config).unwrap();
    let payload = vec![0u8; 512];
    let mut handles = Vec::new();
    for _ in 0..10 {
        handles.push(store.append(&payload).unwrap());
    }
    let mut pages: Vec<u32> = handles.iter().map(|h| h.page_id()).collect();
    pages.sort();
    pages.dedup();
    assert!(pages.len() >= 2);
    assert!(store.stats().page_count >= 2);
    for handle in &handles {
        let retrieved = store.get(handle).unwrap();
        assert_eq!(retrieved.len(), 512);
        assert!(retrieved.iter().all(|&b| b == 0));
    }
}

#[test]
fn test_multi_page_span() {
    let config = Config {
        page_size: 1024 * 1024,
        ..Default::default()
    };
    let mut store = PinnedBlobStore::new(config).unwrap();
    let payload = vec![0x2Cu8; 250 * 1024 * 1024];
    let handle = store.append(&payload).unwrap();
    // The store holds its own copy; release the payload before reading back
    // to keep the test's footprint down.
    drop(payload);
    assert_eq!(handle.end_page_id() - handle.page_id() + 1, 250);
    assert_eq!(handle.total_size(), 250 * 1024 * 1024);
    let retrieved = store.get(&handle).unwrap();
    assert_eq!(retrieved.len(), 250 * 1024 * 1024);
    assert_eq!(retrieved[0], 0x2C);
    assert_eq!(retrieved[retrieved.len() - 1], 0x2C);
}

#[test]
fn test_generation_invalidation() {
    let config = Config {
        page_size: 1024,
        decay_timeout_ms: 50,
        default_ttl_ms: 50,
        ..Default::default()
    };
    let mut store = PinnedBlobStore::new(config).unwrap();
    // Fill at least five pages with two payloads each.
    let payload = vec![7u8; 512];
    let mut handles = Vec::new();
    for _ in 0..10 {
        handles.push(store.append_at(&payload, 1000).unwrap());
    }
    let mut old_pages: Vec<u32> = handles.iter().map(|h| h.page_id()).collect();
    old_pages.sort();
    old_pages.dedup();
    assert!(old_pages.len() >= 5);
    for handle in &handles {
        assert!(store.acknowledge(handle));
    }
    // Two sweeps: the first commits the retirement mark, the second removes
    // pages once the mark has outlived the decay window.
    store.cleanup_at(1100);
    let freed = store.cleanup_at(1200);
    assert!(freed >= 4);
    // New appends reuse identifiers that previously appeared.
    let mut new_pages = Vec::new();
    for _ in 0..6 {
        new_pages.push(store.append_at(&payload, 1300).unwrap().page_id());
    }
    assert!(new_pages.iter().any(|p| old_pages.contains(p)));
    // Old handles never see the new occupants.
    for handle in &handles {
        if handle.page_id() != store.stats().current_page_id {
            assert!(store.get_at(handle, 1300).is_none());
        }
    }
}

#[test]
fn test_hot_page_safety() {
    let mut store = PinnedBlobStore::with_defaults().unwrap();
    let payload = vec![9u8; 100];
    let handle = store.append(&payload).unwrap();
    let freed = store.cleanup_acknowledged();
    assert_eq!(freed, 0);
    assert_eq!(store.get(&handle).unwrap(), payload);
}

#[test]
fn test_expired_handle() {
    let config = Config {
        default_ttl_ms: 10,
        ..Default::default()
    };
    let mut store = PinnedBlobStore::new(config).unwrap();
    let handle = store.append_at(b"soon gone", 1000).unwrap();
    assert_eq!(store.get_at(&handle, 1005).unwrap(), b"soon gone");
    assert!(store.get_at(&handle, 1050).is_none());
}

#[test]
fn test_two_phase_decay() {
    let config = Config {
        page_size: 64,
        decay_timeout_ms: 100,
        default_ttl_ms: 1000,
        ..Default::default()
    };
    let mut store = PinnedBlobStore::new(config).unwrap();
    // Fill page 0 and rotate to page 1 so that page 0 is no longer hot.
    let h0 = store.append_at(&[1u8; 64], 1000).unwrap();
    let h1 = store.append_at(&[2u8; 64], 1000).unwrap();
    assert_ne!(h0.page_id(), h1.page_id());
    assert!(store.acknowledge(&h0));
    // First sweep only marks the retired page.
    assert_eq!(store.cleanup_at(1010), 0);
    // A sweep within the decay window still does not remove it.
    assert_eq!(store.cleanup_at(1100), 0);
    // A sweep past the window removes it.
    assert_eq!(store.cleanup_at(1120), 1);
    assert!(store.get_at(&h0, 1130).is_none());
    assert_eq!(store.get_at(&h1, 1130).unwrap(), vec![2u8; 64]);
}

#[test]
fn test_recycling_prefers_smallest_identifier() {
    let config = Config {
        page_size: 64,
        decay_timeout_ms: 10,
        default_ttl_ms: 1000,
        ..Default::default()
    };
    let mut store = PinnedBlobStore::new(config).unwrap();
    // Fill pages 0..=3; the hot page ends at 3.
    let mut handles = Vec::new();
    for i in 0..4 {
        handles.push(store.append_at(&[i as u8; 64], 1000).unwrap());
    }
    for handle in &handles {
        assert!(store.acknowledge(handle));
    }
    store.cleanup_at(1020);
    let freed = store.cleanup_at(1040);
    assert_eq!(freed, 3); // pages 0, 1, 2; the hot page 3 survives
    // Rotations now reuse the smallest recycled identifiers in order.
    let n0 = store.append_at(&[9u8; 64], 2000).unwrap();
    let n1 = store.append_at(&[9u8; 64], 2000).unwrap();
    let n2 = store.append_at(&[9u8; 64], 2000).unwrap();
    assert_eq!(n0.page_id(), 0);
    assert_eq!(n1.page_id(), 1);
    assert_eq!(n2.page_id(), 2);
    // The old handle for page 0 is permanently invalidated.
    assert!(store.get_at(&handles[0], 2000).is_none());
}

#[test]
fn test_handle_stability_across_appends() {
    let config = Config {
        page_size: 256,
        ..Default::default()
    };
    let mut store = PinnedBlobStore::new(config).unwrap();
    let first = store.append(b"the first payload").unwrap();
    // Arbitrary later appends, including rotations and a multi-page span,
    // never invalidate an existing handle.
    for i in 0..50 {
        store.append(&[i as u8; 100]).unwrap();
    }
    store.append(&vec![0xABu8; 1000]).unwrap();
    assert_eq!(store.get(&first).unwrap(), b"the first payload");
}

#[test]
fn test_multi_page_small_span() {
    let config = Config {
        page_size: 1024,
        ..Default::default()
    };
    let mut store = PinnedBlobStore::new(config).unwrap();
    let mut payload = Vec::new();
    for i in 0..2500u32 {
        payload.push((i % 251) as u8);
    }
    let handle = store.append(&payload).unwrap();
    assert_eq!(handle.page_id(), 1);
    assert_eq!(handle.end_page_id(), 3);
    assert_eq!(handle.offset(), 0);
    assert_eq!(handle.total_size(), 2500);
    let retrieved = store.get(&handle).unwrap();
    assert_eq!(retrieved, payload);
    // Multi-page appends never touch the hot page.
    assert_eq!(store.stats().current_page_id, 0);
    // Acknowledging the whole range succeeds.
    assert!(store.acknowledge(&handle));
}
