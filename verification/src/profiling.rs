//! Monotonic counters for allocation, I/O and reclamation events.
//!
//! Counters only ever grow (saturating at their type's maximum) and never
//! fail; `stats` publishes a derived snapshot computed from saturating
//! differences.

use vstd::prelude::*;

use crate::clock::now_millis;

verus! {

/// Snapshot of the profiler: raw counters and derived state.
///
/// The fragmentation of the active pages is the ratio of
/// `free_space_bytes` to `active_capacity_bytes`.
#[derive(Debug, Clone, Copy, PartialEq, Eq, Structural)]
pub struct ProfileStats {
    /// Pages ever allocated.
    pub total_pages_allocated: usize,
    /// Pages ever freed.
    pub total_pages_freed: usize,
    /// Append operations.
    pub total_appends: u64,
    /// Read operations.
    pub total_reads: u64,
    /// Cleanup sweeps that freed at least one page.
    pub total_cleanups: u64,
    /// Payloads that spanned more than one page.
    pub multi_page_spans: u64,
    /// Payload bytes written.
    pub total_bytes_written: u64,
    /// Payload bytes read.
    pub total_bytes_read: u64,
    /// Payload bytes discarded with freed pages.
    pub total_bytes_discarded: u64,
    /// Capacity bytes ever allocated.
    pub total_capacity_allocated: u64,
    /// Capacity bytes ever freed.
    pub total_capacity_freed: u64,
    /// Pages currently live.
    pub active_pages: usize,
    /// Capacity of the live pages.
    pub active_capacity_bytes: u64,
    /// Payload bytes resident on live pages.
    pub active_data_bytes: u64,
    /// Capacity of the live pages not holding payload bytes.
    pub free_space_bytes: u64,
    /// Seconds since the profiler was created.
    pub uptime_secs: u64,
}

impl ProfileStats {
    /// Average append size in bytes; zero when nothing was appended.
    pub fn avg_append_size(&self) -> (r: u64)
        ensures
            r == if self.total_appends > 0 {
                self.total_bytes_written as int / self.total_appends as int
            } else {
                0int
            },
    {
        if self.total_appends > 0 {
            self.total_bytes_written / self.total_appends
        } else {
            0
        }
    }

    /// Average read size in bytes; zero when nothing was read.
    pub fn avg_read_size(&self) -> (r: u64)
        ensures
            r == if self.total_reads > 0 {
                self.total_bytes_read as int / self.total_reads as int
            } else {
                0int
            },
    {
        if self.total_reads > 0 {
            self.total_bytes_read / self.total_reads
        } else {
            0
        }
    }
}

/// Lightweight metric tracking; counters saturate rather than wrap.
pub struct Profiler {
    /// Pages ever allocated.
    pub total_pages_allocated: usize,
    /// Pages ever freed.
    pub total_pages_freed: usize,
    /// Append operations.
    pub total_appends: u64,
    /// Read operations.
    pub total_reads: u64,
    /// Cleanup sweeps that freed at least one page.
    pub total_cleanups: u64,
    /// Payloads that spanned more than one page.
    pub multi_page_spans: u64,
    /// Payload bytes written.
    pub total_bytes_written: u64,
    /// Payload bytes read.
    pub total_bytes_read: u64,
    /// Payload bytes discarded with freed pages.
    pub total_bytes_discarded: u64,
    /// Capacity bytes ever allocated.
    pub total_capacity_allocated: u64,
    /// Capacity bytes ever freed.
    pub total_capacity_freed: u64,
    /// Wall-clock time at creation, milliseconds since the UNIX epoch.
    pub start_ms: u64,
}

impl Profiler {
    /// Create a profiler with all counters at zero.
    pub fn new() -> (r: Self)
        ensures
            r.total_pages_allocated == 0,
            r.total_pages_freed == 0,
            r.total_appends == 0,
            r.total_reads == 0,
            r.total_cleanups == 0,
            r.multi_page_spans == 0,
            r.total_bytes_written == 0,
            r.total_bytes_read == 0,
            r.total_bytes_discarded == 0,
            r.total_capacity_allocated == 0,
            r.total_capacity_freed == 0,
    {
        let start: u64 = now_millis();
        Profiler {
            total_pages_allocated: 0,
            total_pages_freed: 0,
            total_appends: 0,
            total_reads: 0,
            total_cleanups: 0,
            multi_page_spans: 0,
            total_bytes_written: 0,
            total_bytes_read: 0,
            total_bytes_discarded: 0,
            total_capacity_allocated: 0,
            total_capacity_freed: 0,
            start_ms: start,
        }
    }

    /// Record one append of `size` bytes.
    pub fn record_append(&mut self, size: usize)
        ensures
            *final(self) == (Profiler {
                total_appends: old(self).total_appends.saturating_add(1),
                total_bytes_written: old(self).total_bytes_written.saturating_add(size as u64),
                ..*old(self)
            }),
    {
        self.total_appends = self.total_appends.saturating_add(1);
        self.total_bytes_written = self.total_bytes_written.saturating_add(size as u64);
    }

    /// Record one read of `size` bytes.
    pub fn record_read(&mut self, size: usize)
        ensures
            *final(self) == (Profiler {
                total_reads: old(self).total_reads.saturating_add(1),
                total_bytes_read: old(self).total_bytes_read.saturating_add(size as u64),
                ..*old(self)
            }),
    {
        self.total_reads = self.total_reads.saturating_add(1);
        self.total_bytes_read = self.total_bytes_read.saturating_add(size as u64);
    }

    /// Record the allocation of a page of `capacity` bytes.
    pub fn record_page_allocated(&mut self, capacity: usize)
        ensures
            *final(self) == (Profiler {
                total_pages_allocated: old(self).total_pages_allocated.saturating_add(1),
                total_capacity_allocated: old(self).total_capacity_allocated.saturating_add(
                    capacity as u64,
                ),
                ..*old(self)
            }),
    {
        self.total_pages_allocated = self.total_pages_allocated.saturating_add(1);
        self.total_capacity_allocated = self.total_capacity_allocated.saturating_add(
            capacity as u64,
        );
    }

    /// Record the removal of a page of `capacity` bytes that held `used_data`
    /// payload bytes.
    pub fn record_page_cleanup(&mut self, capacity: usize, used_data: usize)
        ensures
            *final(self) == (Profiler {
                total_pages_freed: old(self).total_pages_freed.saturating_add(1),
                total_capacity_freed: old(self).total_capacity_freed.saturating_add(
                    capacity as u64,
                ),
                total_bytes_discarded: old(self).total_bytes_discarded.saturating_add(
                    used_data as u64,
                ),
                ..*old(self)
            }),
    {
        self.total_pages_freed = self.total_pages_freed.saturating_add(1);
        self.total_capacity_freed = self.total_capacity_freed.saturating_add(capacity as u64);
        self.total_bytes_discarded = self.total_bytes_discarded.saturating_add(used_data as u64);
    }

    /// Record one cleanup sweep that freed at least one page.
    pub fn record_cleanup(&mut self)
        ensures
            *final(self) == (Profiler {
                total_cleanups: old(self).total_cleanups.saturating_add(1),
                ..*old(self)
            }),
    {
        self.total_cleanups = self.total_cleanups.saturating_add(1);
    }

    /// Record one payload that spanned more than one page.
    pub fn record_multi_page_span(&mut self)
        ensures
            *final(self) == (Profiler {
                multi_page_spans: old(self).multi_page_spans.saturating_add(1),
                ..*old(self)
            }),
    {
        self.multi_page_spans = self.multi_page_spans.saturating_add(1);
    }

    /// The snapshot this profiler publishes at time `now_ms`.
    pub open spec fn spec_stats(self, now_ms: u64) -> ProfileStats {
        ProfileStats {
            total_pages_allocated: self.total_pages_allocated,
            total_pages_freed: self.total_pages_freed,
            total_appends: self.total_appends,
            total_reads: self.total_reads,
            total_cleanups: self.total_cleanups,
            multi_page_spans: self.multi_page_spans,
            total_bytes_written: self.total_bytes_written,
            total_bytes_read: self.total_bytes_read,
            total_bytes_discarded: self.total_bytes_discarded,
            total_capacity_allocated: self.total_capacity_allocated,
            total_capacity_freed: self.total_capacity_freed,
            active_pages: self.total_pages_allocated.saturating_sub(self.total_pages_freed),
            active_capacity_bytes: self.total_capacity_allocated.saturating_sub(
                self.total_capacity_freed,
            ),
            active_data_bytes: self.total_bytes_written.saturating_sub(self.total_bytes_discarded),
            free_space_bytes: self.total_capacity_allocated.saturating_sub(
                self.total_capacity_freed,
            ).saturating_sub(
                self.total_bytes_written.saturating_sub(self.total_bytes_discarded),
            ),
            uptime_secs: (now_ms.saturating_sub(self.start_ms) / 1000) as u64,
        }
    }

    /// The statistics snapshot, computed for the given time.
    pub fn stats_at(&self, now_ms: u64) -> (r: ProfileStats)
        ensures
            r == self.spec_stats(now_ms),
    {
        let active_capacity: u64 = self.total_capacity_allocated.saturating_sub(
            self.total_capacity_freed,
        );
        let active_data: u64 = self.total_bytes_written.saturating_sub(self.total_bytes_discarded);
        ProfileStats {
            total_pages_allocated: self.total_pages_allocated,
            total_pages_freed: self.total_pages_freed,
            total_appends: self.total_appends,
            total_reads: self.total_reads,
            total_cleanups: self.total_cleanups,
            multi_page_spans: self.multi_page_spans,
            total_bytes_written: self.total_bytes_written,
            total_bytes_read: self.total_bytes_read,
            total_bytes_discarded: self.total_bytes_discarded,
            total_capacity_allocated: self.total_capacity_allocated,
            total_capacity_freed: self.total_capacity_freed,
            active_pages: self.total_pages_allocated.saturating_sub(self.total_pages_freed),
            active_capacity_bytes: active_capacity,
            active_data_bytes: active_data,
            free_space_bytes: active_capacity.saturating_sub(active_data),
            uptime_secs: now_millis_elapsed(now_ms, self.start_ms),
        }
    }

    /// The statistics snapshot at the present wall-clock time. Every field
    /// but the uptime is independent of the clock.
    pub fn stats(&self) -> (r: ProfileStats)
        ensures
            r == (ProfileStats { uptime_secs: r.uptime_secs, ..self.spec_stats(0) }),
    {
        let now: u64 = now_millis();
        let r = self.stats_at(now);
        proof {
            assert(r == (ProfileStats { uptime_secs: r.uptime_secs, ..self.spec_stats(0) }));
        }
        r
    }
}

/// Whole seconds elapsed from `start_ms` to `now_ms`; zero if the clock went
/// backwards.
fn now_millis_elapsed(now_ms: u64, start_ms: u64) -> (r: u64)
    ensures
        r == (now_ms.saturating_sub(start_ms) / 1000) as u64,
{
    now_ms.saturating_sub(start_ms) / 1000
}

} // verus!
