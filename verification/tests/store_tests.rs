use stable_fragmented_buffer::{BlobError, Config, PinnedBlobStore};

#[test]
fn test_basic_append_and_get() {
    let mut store = PinnedBlobStore::with_defaults().unwrap();

    let data = b"Hello, World!";
    let handle = store.append(data).unwrap();

    let retrieved = store.get(&handle).unwrap();
    assert_eq!(retrieved, data);
}

#[test]
fn test_multiple_appends() {
    let mut store = PinnedBlobStore::with_defaults().unwrap();

    let mut handles = Vec::new();
    for i in 0..100 {
        let data = format!("Message {}", i);
        let handle = store.append(data.as_bytes()).unwrap();
        handles.push((handle, data));
    }

    // Verify all data
    for (handle, expected) in handles {
        let retrieved = store.get(&handle).unwrap();
        assert_eq!(retrieved, expected.as_bytes());
    }
}

#[test]
fn test_page_overflow() {
    // Create store with small pages
    let config = Config {
        page_size: 1024, // 1KB pages
        ..Default::default()
    };
    let mut store = PinnedBlobStore::new(config).unwrap();

    // Append data larger than one page
    let large_data = vec![0u8; 512];

    // Should create multiple pages
    for _ in 0..10 {
        let handle = store.append(&large_data).unwrap();
        let retrieved = store.get(&handle).unwrap();
        assert_eq!(retrieved.len(), 512);
    }

    let stats = store.stats();
    assert!(stats.page_count > 1);
}

#[test]
fn test_empty_payload_rejected() {
    let mut store = PinnedBlobStore::with_defaults().unwrap();
    let err = store.append(b"").unwrap_err();
    assert_eq!(
        err,
        BlobError::DataTooLarge {
            size: 0,
            max: 1024 * 1024
        }
    );
}

#[test]
fn test_acknowledge_roundtrip() {
    let mut store = PinnedBlobStore::with_defaults().unwrap();
    let handle = store.append(b"payload").unwrap();
    assert!(store.acknowledge(&handle));
    // Acknowledged data stays readable until a full decay cycle elapses.
    assert_eq!(store.get(&handle).unwrap(), b"payload");
}

#[test]
fn test_acknowledge_unknown_handle() {
    let mut store = PinnedBlobStore::with_defaults().unwrap();
    let handle = store.append(b"payload").unwrap();
    let mut forged = handle;
    forged.generation = handle.generation().wrapping_add(7);
    assert!(!store.acknowledge(&forged));
    let mut missing = handle;
    missing.page_id = 999;
    missing.end_page_id = 999;
    assert!(!store.acknowledge(&missing));
}

#[test]
fn test_get_wrong_generation_returns_none() {
    let mut store = PinnedBlobStore::with_defaults().unwrap();
    let handle = store.append(b"payload").unwrap();
    let mut forged = handle;
    forged.generation = handle.generation().wrapping_add(1);
    assert!(store.get(&forged).is_none());
}

#[test]
fn test_stats_reports_current_page() {
    let mut store = PinnedBlobStore::with_defaults().unwrap();
    let stats = store.stats();
    assert_eq!(stats.page_count, 1);
    assert_eq!(stats.current_page_id, 0);
    store.append(b"x").unwrap();
    let stats = store.stats();
    assert_eq!(stats.page_count, 1);
}

#[test]
fn test_profiler_counts_appends() {
    let mut store = PinnedBlobStore::with_defaults().unwrap();
    store.append(b"abcd").unwrap();
    store.append(b"efgh").unwrap();
    let handle = store.append(b"ijkl").unwrap();
    store.get(&handle).unwrap();
    let stats = store.profiler().stats();
    assert_eq!(stats.total_appends, 3);
    assert_eq!(stats.total_bytes_written, 12);
    assert_eq!(stats.total_reads, 1);
    assert_eq!(stats.total_bytes_read, 4);
    assert_eq!(stats.total_pages_allocated, 1);
    assert_eq!(stats.avg_append_size(), 4);
    assert_eq!(stats.avg_read_size(), 4);
}
