//! Handles, configuration and the error taxonomy.

use vstd::prelude::*;

use crate::clock::now_millis;

verus! {

/// Reference to a payload stored in the blob store.
///
/// A handle is a small, copyable value: it identifies the payload by page
/// identifier, offset and size, and carries the generation tag that guards
/// against page recycling, plus the creation timestamp used for TTL checks.
/// Handles compare by value; equal handles name the same payload.
#[derive(Debug, Clone, Copy, PartialEq, Eq, Hash, Structural)]
pub struct BlobHandle {
    /// Starting page identifier.
    pub page_id: u32,
    /// Offset within the starting page, in bytes.
    pub offset: u32,
    /// Size of the stored data in bytes; for multi-page data this is the
    /// total size saturated to fit the field.
    pub size: u32,
    /// Creation timestamp, milliseconds since the UNIX epoch.
    pub timestamp: u64,
    /// Generation tag of the starting page at the time of the append.
    pub generation: u32,
    /// Ending page identifier; equals `page_id` for single-page data.
    pub end_page_id: u32,
    /// Total payload length across all pages.
    pub total_size: u64,
}

impl BlobHandle {
    /// Whether a handle created at `timestamp` has outlived `ttl_ms` at time `now_ms`.
    pub open spec fn spec_expired(self, now_ms: u64, ttl_ms: u64) -> bool {
        now_ms - self.timestamp > ttl_ms
    }

    /// Create a handle for single-page data.
    pub fn new(page_id: u32, offset: u32, size: u32, generation: u32, timestamp_ms: u64) -> (r: Self)
        ensures
            r == (BlobHandle {
                page_id,
                offset,
                size,
                timestamp: timestamp_ms,
                generation,
                end_page_id: page_id,
                total_size: size as u64,
            }),
    {
        BlobHandle {
            page_id,
            offset,
            size,
            timestamp: timestamp_ms,
            generation,
            end_page_id: page_id,
            total_size: size as u64,
        }
    }

    /// Create a handle for data spanning the pages `start_page_id..=end_page_id`.
    pub fn new_multi_page(
        start_page_id: u32,
        start_offset: u32,
        end_page_id: u32,
        total_size: u64,
        generation: u32,
        timestamp_ms: u64,
    ) -> (r: Self)
        ensures
            r == (BlobHandle {
                page_id: start_page_id,
                offset: start_offset,
                size: if total_size <= u32::MAX as u64 { total_size as u32 } else { u32::MAX },
                timestamp: timestamp_ms,
                generation,
                end_page_id,
                total_size,
            }),
    {
        let size: u32 = if total_size <= u32::MAX as u64 {
            total_size as u32
        } else {
            u32::MAX
        };
        BlobHandle {
            page_id: start_page_id,
            offset: start_offset,
            size,
            timestamp: timestamp_ms,
            generation,
            end_page_id,
            total_size,
        }
    }

    /// Whether this handle spans more than one page.
    pub fn is_multi_page(&self) -> (r: bool)
        ensures
            r == (self.end_page_id != self.page_id),
    {
        self.end_page_id != self.page_id
    }

    /// Whether this handle has outlived `ttl_ms` at the given time.
    pub fn is_expired_at(&self, now_ms: u64, ttl_ms: u64) -> (r: bool)
        ensures
            r == self.spec_expired(now_ms, ttl_ms),
    {
        now_ms > self.timestamp && now_ms - self.timestamp > ttl_ms
    }

    /// Whether this handle has outlived `ttl_ms` at the present wall-clock time.
    pub fn is_expired(&self, ttl_ms: u64) -> bool {
        let now: u64 = now_millis();
        self.is_expired_at(now, ttl_ms)
    }

    /// Age of this handle in milliseconds at the given time; zero if the
    /// clock reads earlier than the creation timestamp.
    pub fn age_at_ms(&self, now_ms: u64) -> (r: u64)
        ensures
            r == if now_ms >= self.timestamp { now_ms - self.timestamp } else { 0 },
    {
        if now_ms >= self.timestamp {
            now_ms - self.timestamp
        } else {
            0
        }
    }

    /// Age of this handle in milliseconds at the present wall-clock time.
    pub fn age_ms(&self) -> u64 {
        let now: u64 = now_millis();
        self.age_at_ms(now)
    }

    /// Get the starting page identifier.
    pub fn page_id(&self) -> (r: u32)
        ensures
            r == self.page_id,
    {
        self.page_id
    }

    /// Get the offset within the starting page, in bytes.
    pub fn offset(&self) -> (r: u32)
        ensures
            r == self.offset,
    {
        self.offset
    }

    /// Get the size of the stored data, in bytes.
    pub fn size(&self) -> (r: u32)
        ensures
            r == self.size,
    {
        self.size
    }

    /// Get the generation tag.
    pub fn generation(&self) -> (r: u32)
        ensures
            r == self.generation,
    {
        self.generation
    }

    /// Get the ending page identifier.
    pub fn end_page_id(&self) -> (r: u32)
        ensures
            r == self.end_page_id,
    {
        self.end_page_id
    }

    /// Get the total size across all pages.
    pub fn total_size(&self) -> (r: u64)
        ensures
            r == self.total_size,
    {
        self.total_size
    }

    /// Get the creation timestamp, milliseconds since the UNIX epoch.
    pub fn timestamp(&self) -> (r: u64)
        ensures
            r == self.timestamp,
    {
        self.timestamp
    }
}

/// Configuration for the blob store.
#[derive(Debug, Clone, Copy, PartialEq, Eq, Structural)]
pub struct Config {
    /// Size of each page in bytes; also the single/multi-page split threshold.
    pub page_size: usize,

    /// Threshold for proactive hot-page succession, in thousandths of a page
    /// (800 means succession is considered once a page is 80% full).
    pub prefetch_threshold: u32,

    /// How long a fully retired page is kept before it is freed, in milliseconds.
    pub decay_timeout_ms: u64,

    /// Default time-to-live for stored data, in milliseconds.
    pub default_ttl_ms: u64,
}

impl Config {
    /// A workable configuration: pages hold at least one byte, and offsets
    /// within a page fit the 32-bit fields of a handle.
    pub open spec fn wf(self) -> bool {
        1 <= self.page_size <= u32::MAX
    }

    /// Create a performance-oriented configuration: larger pages, longer decay.
    pub fn performance() -> (r: Self)
        ensures
            r.page_size == 2 * 1024 * 1024,
            r.prefetch_threshold == 800,
            r.decay_timeout_ms == 7000,
            r.default_ttl_ms == 30000,
            r.wf(),
    {
        Config {
            page_size: 2 * 1024 * 1024,
            prefetch_threshold: 800,
            decay_timeout_ms: 7000,
            default_ttl_ms: 30000,
        }
    }

    /// Create a memory-oriented configuration: smaller pages, faster decay.
    pub fn memory_efficient() -> (r: Self)
        ensures
            r.page_size == 512 * 1024,
            r.prefetch_threshold == 900,
            r.decay_timeout_ms == 1000,
            r.default_ttl_ms == 30000,
            r.wf(),
    {
        Config {
            page_size: 512 * 1024,
            prefetch_threshold: 900,
            decay_timeout_ms: 1000,
            default_ttl_ms: 30000,
        }
    }
}

impl Default for Config {
    /// The default shape: 1 MiB pages, 80% prefetch threshold, 5 s decay,
    /// 30 s time-to-live.
    fn default() -> (r: Self)
        ensures
            r.page_size == 1024 * 1024,
            r.prefetch_threshold == 800,
            r.decay_timeout_ms == 5000,
            r.default_ttl_ms == 30000,
            r.wf(),
    {
        Config {
            page_size: 1024 * 1024,
            prefetch_threshold: 800,
            decay_timeout_ms: 5000,
            default_ttl_ms: 30000,
        }
    }
}

/// Errors that can arise in the blob store.
#[derive(Debug, Clone, Copy, PartialEq, Eq, Structural)]
pub enum BlobError {
    /// A handle outlived its time-to-live; `get` reports this as an empty result.
    HandleExpired,
    /// Generation mismatch or unknown page; `get` reports this as an empty result.
    InvalidHandle,
    /// A page or identifier could not be allocated.
    OutOfMemory,
    /// The payload is empty or exceeds what the store can hold.
    DataTooLarge { size: usize, max: usize },
    /// A page has no room left; recovered internally by rotating the hot page.
    PageFull,
}

} // verus!
