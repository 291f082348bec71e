//! Pages and per-payload entry metadata.
//!
//! A page is a fixed-capacity byte buffer written front to back through a
//! monotonic `used` cursor. Each payload stored on the page leaves one entry
//! record behind; a page whose entries are all acknowledged or aged out is
//! *retired*, and a page that stays retired past the decay window is removed
//! by the store and its identifier recycled.

use vstd::prelude::*;
use vstd::slice::{slice_subrange, slice_to_vec};

use crate::types::BlobError;

verus! {

/// Metadata for a single payload stored within a page.
#[derive(Debug, Clone, Copy, PartialEq, Eq, Structural)]
pub struct EntryMetadata {
    /// Offset within the page, in bytes.
    pub offset: u32,
    /// Size of the payload slice on this page, in bytes.
    pub size: u32,
    /// Creation timestamp, milliseconds since the UNIX epoch.
    pub timestamp: u64,
    /// Whether this entry has been acknowledged.
    pub acknowledged: bool,
}

impl EntryMetadata {
    /// Whether the entry has outlived `ttl_ms` at time `now_ms`.
    pub open spec fn spec_expired(self, now_ms: u64, ttl_ms: u64) -> bool {
        now_ms - self.timestamp > ttl_ms
    }

    /// Whether the entry is retired at time `now_ms`: acknowledged or expired.
    pub open spec fn spec_retired(self, now_ms: u64, ttl_ms: u64) -> bool {
        self.acknowledged || self.spec_expired(now_ms, ttl_ms)
    }

    /// Create a fresh, unacknowledged entry.
    pub fn new(offset: u32, size: u32, timestamp_ms: u64) -> (r: Self)
        ensures
            r == (EntryMetadata { offset, size, timestamp: timestamp_ms, acknowledged: false }),
    {
        EntryMetadata { offset, size, timestamp: timestamp_ms, acknowledged: false }
    }

    /// Whether this entry has outlived `ttl_ms` at the given time.
    pub fn is_expired_at(&self, now_ms: u64, ttl_ms: u64) -> (r: bool)
        ensures
            r == self.spec_expired(now_ms, ttl_ms),
    {
        now_ms > self.timestamp && now_ms - self.timestamp > ttl_ms
    }

    /// Whether this entry has outlived `ttl_ms` at the present wall-clock time.
    pub fn is_expired(&self, ttl_ms: u64) -> bool {
        let now: u64 = crate::clock::now_millis();
        self.is_expired_at(now, ttl_ms)
    }

    /// Mark this entry as acknowledged.
    pub fn acknowledge(&mut self)
        ensures
            *final(self) == (EntryMetadata { acknowledged: true, ..*old(self) }),
    {
        self.acknowledged = true;
    }

    /// Whether this entry is retired at the given time: acknowledged or expired.
    pub fn should_cleanup_at(&self, now_ms: u64, ttl_ms: u64) -> (r: bool)
        ensures
            r == self.spec_retired(now_ms, ttl_ms),
    {
        self.acknowledged || self.is_expired_at(now_ms, ttl_ms)
    }

    /// Whether this entry is retired at the present wall-clock time.
    /// An acknowledged entry is retired whatever the clock returns.
    pub fn should_cleanup(&self, ttl_ms: u64) -> (r: bool)
        ensures
            self.acknowledged ==> r,
    {
        let now: u64 = crate::clock::now_millis();
        self.should_cleanup_at(now, ttl_ms)
    }
}

/// Entry records never overlap, never leave the written region, and are kept
/// in the order of their offsets.
pub open spec fn entries_wf(entries: Seq<EntryMetadata>, used: int) -> bool {
    &&& forall|i: int| 0 <= i < entries.len() ==> (#[trigger] entries[i]).size >= 1
    &&& forall|i: int|
        0 <= i < entries.len() ==> (#[trigger] entries[i]).offset + entries[i].size <= used
    &&& forall|i: int, j: int|
        0 <= i < j < entries.len() ==> (#[trigger] entries[i]).offset + entries[i].size
            <= (#[trigger] entries[j]).offset
}

/// A fixed-capacity page of memory.
///
/// The buffer always holds exactly the page's capacity; bytes at or beyond
/// `used` have not been claimed by any payload.
pub struct Page {
    /// Unique page identifier.
    pub id: u32,
    /// Generation tag for handle validation.
    pub generation: u32,
    /// The data buffer; its length is the page's capacity and never changes.
    pub data: Vec<u8>,
    /// Number of bytes reserved from the front of the buffer.
    pub used: usize,
    /// Metadata for all payloads on this page.
    pub entries: Vec<EntryMetadata>,
    /// Wall-clock time at which the page was first observed fully retired,
    /// or 0 when the page is not known to be retired.
    pub empty_since_ms: u64,
}

impl Page {
    /// The fixed byte capacity.
    pub open spec fn capacity(self) -> int {
        self.data@.len() as int
    }

    /// Well-formedness: the cursor stays within the buffer, offsets fit the
    /// 32-bit handle fields, and the entry records are ordered and disjoint.
    pub open spec fn wf(self) -> bool {
        &&& self.used <= self.data@.len()
        &&& self.data@.len() <= u32::MAX
        &&& entries_wf(self.entries@, self.used as int)
    }

    /// Whether every entry on the page is retired at time `now_ms`.
    pub open spec fn spec_retired_page(self, now_ms: u64, ttl_ms: u64) -> bool {
        forall|i: int|
            0 <= i < self.entries@.len() ==> (#[trigger] self.entries@[i]).spec_retired(
                now_ms,
                ttl_ms,
            )
    }

    /// Whether the page is due for removal at time `now_ms`: fully retired,
    /// already marked retired, and marked for longer than the decay window.
    pub open spec fn spec_should_decay(self, now_ms: u64, decay_timeout_ms: u64, ttl_ms: u64) -> bool {
        &&& self.spec_retired_page(now_ms, ttl_ms)
        &&& self.empty_since_ms != 0
        &&& now_ms - self.empty_since_ms > decay_timeout_ms
    }

    /// Create a new, zero-filled page.
    pub fn new(id: u32, size: usize, generation: u32) -> (r: Page)
        requires
            size <= u32::MAX,
        ensures
            r.id == id,
            r.generation == generation,
            r.used == 0,
            r.entries@ == Seq::<EntryMetadata>::empty(),
            r.empty_since_ms == 0,
            r.data@ == Seq::new(size as nat, |i: int| 0u8),
            r.wf(),
    {
        let data: Vec<u8> = vec![0u8; size];
        proof {
            assert(data@ =~= Seq::new(size as nat, |i: int| 0u8));
        }
        Page { id, generation, data, used: 0, entries: Vec::new(), empty_since_ms: 0 }
    }

    /// Try to append a whole payload to this page.
    ///
    /// An empty payload or one larger than the capacity is rejected as too
    /// large; a payload that no longer fits behind the cursor fails with
    /// `PageFull` and leaves the page unchanged. On success the payload is
    /// copied to offset `used`, one entry is recorded, and the retirement
    /// mark is cleared.
    pub fn try_append(&mut self, payload: &[u8], now_ms: u64) -> (r: Result<(u32, u32), BlobError>)
        requires
            old(self).wf(),
        ensures
            final(self).wf(),
            final(self).id == old(self).id,
            final(self).generation == old(self).generation,
            final(self).capacity() == old(self).capacity(),
            payload@.len() == 0 ==> r == Err::<(u32, u32), BlobError>(
                BlobError::DataTooLarge { size: 0, max: old(self).data.len() },
            ) && *final(self) == *old(self),
            payload@.len() > old(self).data@.len() ==> r == Err::<(u32, u32), BlobError>(
                BlobError::DataTooLarge { size: payload.len(), max: old(self).data.len() },
            ) && *final(self) == *old(self),
            1 <= payload@.len() <= old(self).data@.len()
                && old(self).used + payload@.len() > old(self).data@.len() ==> r == Err::<
                (u32, u32),
                BlobError,
            >(BlobError::PageFull) && *final(self) == *old(self),
            1 <= payload@.len() && old(self).used + payload@.len() <= old(self).data@.len() ==> {
                &&& r == Ok::<(u32, u32), BlobError>(
                    (old(self).used as u32, payload@.len() as u32),
                )
                &&& final(self).used == old(self).used + payload@.len()
                &&& final(self).data@.subrange(0, old(self).used as int) == old(
                    self,
                ).data@.subrange(0, old(self).used as int)
                &&& final(self).data@.subrange(
                    old(self).used as int,
                    old(self).used + payload@.len(),
                ) == payload@
                &&& final(self).entries@ == old(self).entries@.push(
                    EntryMetadata {
                        offset: old(self).used as u32,
                        size: payload@.len() as u32,
                        timestamp: now_ms,
                        acknowledged: false,
                    },
                )
                &&& final(self).empty_since_ms == 0
            },
    {
        let len: usize = payload.len();
        let cap: usize = self.data.len();
        if len == 0 {
            return Err(BlobError::DataTooLarge { size: 0, max: cap });
        }
        if len > cap {
            return Err(BlobError::DataTooLarge { size: len, max: cap });
        }
        if len > cap - self.used {
            return Err(BlobError::PageFull);
        }
        let offset: usize = self.used;
        self.write_at_cursor(payload);
        self.used = offset + len;
        self.entries.push(EntryMetadata::new(offset as u32, len as u32, now_ms));
        self.empty_since_ms = 0;
        Ok((offset as u32, len as u32))
    }

    /// Try to append as much of the payload as fits; returns the offset and
    /// the number of bytes written.
    ///
    /// Fails with `PageFull` only when the page has no room at all; an empty
    /// payload is rejected as too large. Used by the multi-page writer.
    pub fn try_append_partial(&mut self, payload: &[u8], now_ms: u64) -> (r: Result<
        (u32, u32),
        BlobError,
    >)
        requires
            old(self).wf(),
        ensures
            final(self).wf(),
            final(self).id == old(self).id,
            final(self).generation == old(self).generation,
            final(self).capacity() == old(self).capacity(),
            payload@.len() == 0 ==> r == Err::<(u32, u32), BlobError>(
                BlobError::DataTooLarge { size: 0, max: old(self).data.len() },
            ) && *final(self) == *old(self),
            payload@.len() >= 1 && old(self).used == old(self).data@.len() ==> r == Err::<
                (u32, u32),
                BlobError,
            >(BlobError::PageFull) && *final(self) == *old(self),
            payload@.len() >= 1 && old(self).used < old(self).data@.len() ==> {
                let k = if payload@.len() <= old(self).data@.len() - old(self).used {
                    payload@.len() as int
                } else {
                    old(self).data@.len() - old(self).used
                };
                &&& r == Ok::<(u32, u32), BlobError>((old(self).used as u32, k as u32))
                &&& final(self).used == old(self).used + k
                &&& final(self).data@.subrange(0, old(self).used as int) == old(
                    self,
                ).data@.subrange(0, old(self).used as int)
                &&& final(self).data@.subrange(old(self).used as int, old(self).used + k)
                    == payload@.subrange(0, k)
                &&& final(self).entries@ == old(self).entries@.push(
                    EntryMetadata {
                        offset: old(self).used as u32,
                        size: k as u32,
                        timestamp: now_ms,
                        acknowledged: false,
                    },
                )
                &&& final(self).empty_since_ms == 0
            },
    {
        let len: usize = payload.len();
        let cap: usize = self.data.len();
        if len == 0 {
            return Err(BlobError::DataTooLarge { size: 0, max: cap });
        }
        if self.used == cap {
            return Err(BlobError::PageFull);
        }
        let available: usize = cap - self.used;
        let k: usize = if len <= available {
            len
        } else {
            available
        };
        let part: &[u8] = slice_subrange(payload, 0, k);
        let offset: usize = self.used;
        self.write_at_cursor(part);
        self.used = offset + k;
        self.entries.push(EntryMetadata::new(offset as u32, k as u32, now_ms));
        self.empty_since_ms = 0;
        Ok((offset as u32, k as u32))
    }

    /// Copy `payload` into the buffer at offset `used`, leaving the capacity
    /// and the bytes below the cursor unchanged.
    fn write_at_cursor(&mut self, payload: &[u8])
        requires
            old(self).used + payload@.len() <= old(self).data@.len(),
        ensures
            final(self).data@.len() == old(self).data@.len(),
            final(self).data@.subrange(0, old(self).used as int) == old(self).data@.subrange(
                0,
                old(self).used as int,
            ),
            final(self).data@.subrange(old(self).used as int, old(self).used + payload@.len())
                == payload@,
            final(self).id == old(self).id,
            final(self).generation == old(self).generation,
            final(self).used == old(self).used,
            final(self).entries == old(self).entries,
            final(self).empty_since_ms == old(self).empty_since_ms,
    {
        let cap: usize = self.data.len();
        let used: usize = self.used;
        let ghost d0 = self.data@;
        self.data.truncate(used);
        let ghost d1 = self.data@;
        self.data.extend_from_slice(payload);
        let ghost d2 = self.data@;
        self.data.resize(cap, 0u8);
        proof {
            let ui = used as int;
            let pl = payload@.len() as int;
            assert(d1 == d0.subrange(0, ui));
            assert(d2.len() == ui + pl);
            if cap > ui + pl {
                assert(self.data@.subrange(0, d2.len() as int) == d2);
            } else {
                assert(self.data@ == d2.subrange(0, cap as int));
                assert(d2.subrange(0, cap as int) =~= d2);
            }
            assert forall|i: int| 0 <= i < ui + pl implies self.data@[i] == d2[i] by {
                assert(self.data@.subrange(0, d2.len() as int)[i] == d2[i]);
            }
            assert(self.data@.subrange(0, ui) =~= d0.subrange(0, ui)) by {
                assert forall|i: int| 0 <= i < ui implies self.data@[i] == d0.subrange(0, ui)[i] by {
                    assert(self.data@[i] == d2[i]);
                    assert(d2[i] == d1[i]);
                }
            }
            assert(self.data@.subrange(ui, ui + pl) =~= payload@) by {
                assert forall|i: int| 0 <= i < pl implies self.data@.subrange(ui, ui + pl)[i]
                    == payload@[i] by {
                    assert(self.data@[ui + i] == d2[ui + i]);
                    assert(d2[ui + i] == payload@[i]);
                }
            }
        }
    }

    /// Copy out `size` bytes starting at `offset`.
    ///
    /// Bounds are checked against the capacity, not against `used`: a caller
    /// holding a handle whose generation matched has a region that was
    /// written before the handle was released.
    pub fn get(&self, offset: u32, size: u32) -> (r: Option<Vec<u8>>)
        ensures
            offset + size <= self.data@.len() ==> (r matches Some(v) && v@ == self.data@.subrange(
                offset as int,
                offset + size,
            )),
            offset + size > self.data@.len() ==> r is None,
    {
        let end: u64 = offset as u64 + size as u64;
        if end <= self.data.len() as u64 {
            let part: &[u8] = slice_subrange(
                self.data.as_slice(),
                offset as usize,
                offset as usize + size as usize,
            );
            Some(slice_to_vec(part))
        } else {
            None
        }
    }

    /// Bytes not yet reserved by any payload.
    pub fn available_space(&self) -> (r: usize)
        requires
            self.wf(),
        ensures
            r == self.data@.len() - self.used,
    {
        self.data.len() - self.used
    }

    /// Whether every entry is retired (acknowledged or expired) at time
    /// `now_ms`; a page with no entries counts as retired.
    pub fn is_empty(&self, now_ms: u64, ttl_ms: u64) -> (r: bool)
        ensures
            r == self.spec_retired_page(now_ms, ttl_ms),
    {
        let n: usize = self.entries.len();
        let mut i: usize = 0;
        while i < n
            invariant
                0 <= i <= n,
                n == self.entries@.len(),
                forall|j: int| 0 <= j < i ==> (#[trigger] self.entries@[j]).spec_retired(
                    now_ms,
                    ttl_ms,
                ),
            decreases n - i,
        {
            let e: &EntryMetadata = &self.entries[i];
            if !e.should_cleanup_at(now_ms, ttl_ms) {
                return false;
            }
            i = i + 1;
        }
        true
    }

    /// Commit or clear the retirement timestamp.
    ///
    /// If the page is fully retired and not yet marked, the mark is set to
    /// `now_ms`; if it is not retired, the mark is cleared.
    pub fn mark_empty_if_needed(&mut self, now_ms: u64, ttl_ms: u64)
        ensures
            *final(self) == (Page {
                empty_since_ms: if old(self).spec_retired_page(now_ms, ttl_ms) {
                    if old(self).empty_since_ms == 0 {
                        now_ms
                    } else {
                        old(self).empty_since_ms
                    }
                } else {
                    0
                },
                ..*old(self)
            }),
    {
        if self.is_empty(now_ms, ttl_ms) {
            if self.empty_since_ms == 0 {
                self.empty_since_ms = now_ms;
            }
        } else {
            self.empty_since_ms = 0;
        }
    }

    /// Whether the page should be freed at time `now_ms`: retired, marked,
    /// and marked for longer than `decay_timeout_ms`.
    pub fn should_decay(&self, now_ms: u64, decay_timeout_ms: u64, ttl_ms: u64) -> (r: bool)
        ensures
            r == self.spec_should_decay(now_ms, decay_timeout_ms, ttl_ms),
    {
        if !self.is_empty(now_ms, ttl_ms) {
            return false;
        }
        if self.empty_since_ms == 0 {
            return false;
        }
        now_ms > self.empty_since_ms && now_ms - self.empty_since_ms > decay_timeout_ms
    }

    /// The index of the entry at `offset`, if one exists. Well-formed entry
    /// lists hold at most one entry per offset.
    pub open spec fn spec_find_entry(self, offset: u32) -> Option<int> {
        if exists|i: int|
            0 <= i < self.entries@.len() && (#[trigger] self.entries@[i]).offset == offset {
            Some(
                choose|i: int|
                    0 <= i < self.entries@.len() && (#[trigger] self.entries@[i]).offset == offset,
            )
        } else {
            None
        }
    }

    /// Whether an entry at the given offset exists.
    pub fn has_entry(&self, offset: u32) -> (r: bool)
        ensures
            r == (self.spec_find_entry(offset) is Some),
    {
        let n: usize = self.entries.len();
        let mut i: usize = 0;
        while i < n
            invariant
                0 <= i <= n,
                n == self.entries@.len(),
                forall|j: int| 0 <= j < i ==> (#[trigger] self.entries@[j]).offset != offset,
            decreases n - i,
        {
            if self.entries[i].offset == offset {
                proof {
                    assert(self.entries@[i as int].offset == offset);
                }
                return true;
            }
            i = i + 1;
        }
        false
    }

    /// This page as `mark_empty_if_needed` leaves it at time `now_ms`.
    pub open spec fn spec_marked(self, now_ms: u64, ttl_ms: u64) -> Page {
        Page {
            empty_since_ms: if self.spec_retired_page(now_ms, ttl_ms) {
                if self.empty_since_ms == 0 {
                    now_ms
                } else {
                    self.empty_since_ms
                }
            } else {
                0
            },
            ..self
        }
    }

    /// Acknowledge the entry at the given offset; reports whether a matching
    /// entry was found.
    pub fn acknowledge_entry(&mut self, offset: u32) -> (r: bool)
        requires
            old(self).wf(),
        ensures
            final(self).wf(),
            r == (old(self).spec_find_entry(offset) is Some),
            old(self).spec_find_entry(offset) matches Some(i) ==> final(self).entries@ == ack_at(
                old(self).entries@,
                i,
            ) && final(self).id == old(self).id && final(self).generation == old(self).generation
                && final(self).data == old(self).data && final(self).used == old(self).used
                && final(self).empty_since_ms == old(self).empty_since_ms,
            old(self).spec_find_entry(offset) is None ==> *final(self) == *old(self),
    {
        let n: usize = self.entries.len();
        let mut i: usize = 0;
        while i < n
            invariant
                0 <= i <= n,
                n == self.entries@.len(),
                self.wf(),
                *self == *old(self),
                forall|j: int| 0 <= j < i ==> (#[trigger] self.entries@[j]).offset != offset,
            decreases n - i,
        {
            if self.entries[i].offset == offset {
                proof {
                    assert(self.spec_find_entry(offset) matches Some(k) && k == i) by {
                        assert(self.entries@[i as int].offset == offset);
                        let k = choose|k: int|
                            0 <= k < self.entries@.len() && (#[trigger] self.entries@[k]).offset
                                == offset;
                        if k != i {
                            entries_offsets_distinct(self.entries@, self.used as int, k, i as int);
                        }
                    }
                }
                let e: EntryMetadata = self.entries[i];
                self.entries[i] = EntryMetadata { acknowledged: true, ..e };
                proof {
                    assert(entries_wf(self.entries@, self.used as int));
                    assert(self.entries@ =~= ack_at(old(self).entries@, i as int));
                }
                return true;
            }
            i = i + 1;
        }
        false
    }

    /// The number of entries not yet retired at time `now_ms`.
    pub fn active_entry_count(&self, now_ms: u64, ttl_ms: u64) -> (r: usize)
        ensures
            r == count_active(self.entries@, now_ms, ttl_ms),
    {
        let n: usize = self.entries.len();
        let mut i: usize = 0;
        let mut count: usize = 0;
        while i < n
            invariant
                0 <= i <= n,
                n == self.entries@.len(),
                count == count_active(self.entries@.subrange(0, i as int), now_ms, ttl_ms),
                count <= i,
            decreases n - i,
        {
            proof {
                assert(self.entries@.subrange(0, i as int + 1).drop_last() =~= self.entries@.subrange(
                    0,
                    i as int,
                ));
                assert(self.entries@.subrange(0, i as int + 1).last() == self.entries@[i as int]);
            }
            if !self.entries[i].should_cleanup_at(now_ms, ttl_ms) {
                count = count + 1;
            }
            i = i + 1;
        }
        proof {
            assert(self.entries@.subrange(0, n as int) =~= self.entries@);
        }
        count
    }
}

/// The number of entries in `entries` that are not retired at time `now_ms`.
pub open spec fn count_active(entries: Seq<EntryMetadata>, now_ms: u64, ttl_ms: u64) -> int
    decreases entries.len(),
{
    if entries.len() == 0 {
        0
    } else {
        count_active(entries.drop_last(), now_ms, ttl_ms) + if entries.last().spec_retired(
            now_ms,
            ttl_ms,
        ) {
            0int
        } else {
            1int
        }
    }
}

/// Two distinct well-formed entries never share an offset.
proof fn entries_offsets_distinct(entries: Seq<EntryMetadata>, used: int, i: int, j: int)
    requires
        entries_wf(entries, used),
        0 <= i < entries.len(),
        0 <= j < entries.len(),
        i != j,
    ensures
        entries[i].offset != entries[j].offset,
{
    if i < j {
        assert(entries[i].offset + entries[i].size <= entries[j].offset);
    } else {
        assert(entries[j].offset + entries[j].size <= entries[i].offset);
    }
}

/// `entries` with the entry at index `i` marked acknowledged.
pub open spec fn ack_at(entries: Seq<EntryMetadata>, i: int) -> Seq<EntryMetadata> {
    entries.update(i, EntryMetadata { acknowledged: true, ..entries[i] })
}

} // verus!
