use stable_fragmented_buffer::page::{EntryMetadata, Page};
use stable_fragmented_buffer::profiling::Profiler;
use stable_fragmented_buffer::types::{BlobError, BlobHandle, Config};

#[test]
fn test_handle_fields() {
    let h = BlobHandle::new(3, 40, 7, 2, 12345);
    assert_eq!(h.page_id(), 3);
    assert_eq!(h.offset(), 40);
    assert_eq!(h.size(), 7);
    assert_eq!(h.generation(), 2);
    assert_eq!(h.end_page_id(), 3);
    assert_eq!(h.total_size(), 7);
    assert_eq!(h.timestamp(), 12345);
    assert!(!h.is_multi_page());
}

#[test]
fn test_handle_multi_page_saturates_size() {
    let total = (u32::MAX as u64) + 1000;
    let h = BlobHandle::new_multi_page(5, 0, 9, total, 4, 77);
    assert!(h.is_multi_page());
    assert_eq!(h.size(), u32::MAX);
    assert_eq!(h.total_size(), total);
    assert_eq!(h.page_id(), 5);
    assert_eq!(h.end_page_id(), 9);
}

#[test]
fn test_handle_expiry_at() {
    let h = BlobHandle::new(0, 0, 1, 0, 1000);
    assert!(!h.is_expired_at(1000, 50));
    assert!(!h.is_expired_at(1050, 50));
    assert!(h.is_expired_at(1051, 50));
    // A clock that reads earlier than the creation time never expires.
    assert!(!h.is_expired_at(900, 50));
    assert_eq!(h.age_at_ms(1200), 200);
    assert_eq!(h.age_at_ms(900), 0);
}

#[test]
fn test_entry_metadata_retirement() {
    let mut e = EntryMetadata::new(0, 16, 1000);
    assert!(!e.is_expired_at(1000, 100));
    assert!(e.is_expired_at(1101, 100));
    assert!(!e.should_cleanup_at(1050, 100));
    e.acknowledge();
    assert!(e.should_cleanup_at(1000, 100));
    assert!(e.should_cleanup(100));
}

#[test]
fn test_page_append_and_get() {
    let mut page = Page::new(0, 64, 0);
    let (off, size) = page.try_append(b"abcdef", 1000).unwrap();
    assert_eq!(off, 0);
    assert_eq!(size, 6);
    let (off2, size2) = page.try_append(b"ghij", 1000).unwrap();
    assert_eq!(off2, 6);
    assert_eq!(size2, 4);
    assert_eq!(page.get(0, 6).unwrap(), b"abcdef");
    assert_eq!(page.get(6, 4).unwrap(), b"ghij");
    assert!(page.get(60, 8).is_none());
    assert_eq!(page.available_space(), 54);
}

#[test]
fn test_page_full_and_too_large() {
    let mut page = Page::new(0, 8, 0);
    assert_eq!(
        page.try_append(&[1u8; 9], 0),
        Err(BlobError::DataTooLarge { size: 9, max: 8 })
    );
    page.try_append(&[1u8; 6], 0).unwrap();
    assert_eq!(page.try_append(&[1u8; 4], 0), Err(BlobError::PageFull));
    // A partial append takes what fits.
    let (off, wrote) = page.try_append_partial(&[2u8; 4], 0).unwrap();
    assert_eq!(off, 6);
    assert_eq!(wrote, 2);
    assert_eq!(page.try_append_partial(&[3u8; 1], 0), Err(BlobError::PageFull));
}

#[test]
fn test_page_retirement_cycle() {
    let mut page = Page::new(0, 64, 0);
    // An empty page counts as retired.
    assert!(page.is_empty(1000, 100));
    page.try_append(b"xy", 1000).unwrap();
    assert!(!page.is_empty(1000, 100));
    page.mark_empty_if_needed(1000, 100);
    assert!(!page.should_decay(1000, 50, 100));
    assert!(page.acknowledge_entry(0));
    assert!(!page.acknowledge_entry(1));
    assert!(page.is_empty(1000, 100));
    page.mark_empty_if_needed(1000, 100);
    assert!(!page.should_decay(1040, 50, 100));
    assert!(page.should_decay(1051, 50, 100));
    assert_eq!(page.active_entry_count(1000, 100), 0);
}

#[test]
fn test_config_presets() {
    let d = Config::default();
    assert_eq!(d.page_size, 1024 * 1024);
    assert_eq!(d.prefetch_threshold, 800);
    assert_eq!(d.decay_timeout_ms, 5000);
    assert_eq!(d.default_ttl_ms, 30000);
    let p = Config::performance();
    assert_eq!(p.page_size, 2 * 1024 * 1024);
    assert_eq!(p.decay_timeout_ms, 7000);
    let m = Config::memory_efficient();
    assert_eq!(m.page_size, 512 * 1024);
    assert_eq!(m.prefetch_threshold, 900);
    assert_eq!(m.decay_timeout_ms, 1000);
}

#[test]
fn test_profiler_stats_snapshot() {
    let mut p = Profiler::new();
    p.record_append(100);
    p.record_append(50);
    p.record_read(30);
    p.record_page_allocated(1024);
    p.record_page_allocated(1024);
    p.record_page_cleanup(1024, 600);
    p.record_cleanup();
    p.record_multi_page_span();
    let start = p.start_ms;
    let s = p.stats_at(start + 2500);
    assert_eq!(s.total_appends, 2);
    assert_eq!(s.total_bytes_written, 150);
    assert_eq!(s.total_reads, 1);
    assert_eq!(s.total_bytes_read, 30);
    assert_eq!(s.total_pages_allocated, 2);
    assert_eq!(s.total_pages_freed, 1);
    assert_eq!(s.total_capacity_allocated, 2048);
    assert_eq!(s.total_capacity_freed, 1024);
    assert_eq!(s.total_bytes_discarded, 600);
    assert_eq!(s.active_pages, 1);
    assert_eq!(s.active_capacity_bytes, 1024);
    assert_eq!(s.active_data_bytes, 0); // 150 written, 600 discarded: saturates
    assert_eq!(s.free_space_bytes, 1024);
    assert_eq!(s.total_cleanups, 1);
    assert_eq!(s.multi_page_spans, 1);
    assert_eq!(s.uptime_secs, 2);
    assert_eq!(s.avg_append_size(), 75);
    assert_eq!(s.avg_read_size(), 30);
}
