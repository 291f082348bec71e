//! The arena: page selection, append, get, acknowledge, cleanup, recycling.
//!
//! Appends route either to the single-page fast path (the current hot page)
//! or to the multi-page path, which reserves a contiguous run of fresh
//! identifiers above the high-water mark. Gets validate the handle's
//! generation against the page before any byte is returned. Cleanup is a
//! two-phase protocol: a sweep first observes a page fully retired and
//! records the time; a later sweep removes it once it has stayed retired
//! past the decay window, returning its identifier to the free list.

use vstd::prelude::*;

use crate::backend::{count_live, SegmentedBackend};
use crate::clock::now_millis;
use crate::free_list::FreeList;
use crate::page::Page;
use crate::profiling::Profiler;
use crate::types::{BlobError, BlobHandle, Config};

verus! {

/// Statistics about the blob store.
#[derive(Debug, Clone, Copy, PartialEq, Eq, Structural)]
pub struct BlobStats {
    /// Number of live pages.
    pub page_count: usize,
    /// Identifier of the current hot page.
    pub current_page_id: u32,
}

/// The blob store: a page-backed arena handing out stable, value-typed
/// handles for byte payloads.
pub struct PinnedBlobStore {
    /// The page table.
    pub backend: SegmentedBackend,
    /// Tunables, fixed at construction.
    pub config: Config,
    /// The hot page: target of single-page appends.
    pub current_page: u32,
    /// Highest page identifier ever reserved.
    pub high_water_mark: u32,
    /// Recycled page identifiers, smallest first out.
    pub free_pages: FreeList,
    /// Bumped on every page allocation; live pages always carry a smaller tag.
    pub generation_counter: u32,
    /// Event counters.
    pub profiler: Profiler,
}

impl PinnedBlobStore {
    /// Whether a live page occupies slot `id`.
    pub open spec fn live(self, id: u32) -> bool {
        self.backend.live(id)
    }

    /// The page at slot `id`.
    pub open spec fn page_at(self, id: u32) -> Page
        recommends
            self.live(id),
    {
        self.backend.page_at(id)
    }

    /// The store's invariant.
    ///
    /// Every live page is well-formed, sits in its own slot, has the
    /// configured capacity and a generation below the counter; the hot page
    /// is live; no free-list identifier is live or above the high-water
    /// mark, and none appears twice (the list is strictly ordered).
    pub open spec fn inv(self) -> bool {
        &&& self.config.wf()
        &&& self.backend.pages@.len() <= self.high_water_mark as int + 1
        &&& forall|id: u32|
            #[trigger] self.live(id) ==> self.page_at(id).wf() && self.page_at(id).id == id
                && self.page_at(id).capacity() == self.config.page_size && self.page_at(
                id,
            ).generation < self.generation_counter
        &&& self.live(self.current_page)
        &&& self.free_pages.wf()
        &&& forall|id: u32|
            #[trigger] self.free_pages.spec_contains(id) ==> !self.live(id) && id
                <= self.high_water_mark
    }

    /// A single-page handle that refers to bytes the store wrote and will
    /// keep until the page is removed or recycled.
    pub open spec fn valid_single(self, h: BlobHandle) -> bool {
        &&& h.end_page_id == h.page_id
        &&& self.live(h.page_id)
        &&& self.page_at(h.page_id).generation == h.generation
        &&& h.offset + h.size <= self.page_at(h.page_id).used
    }

    /// A multi-page handle that refers to bytes the store wrote and will
    /// keep until a page of its run is removed or recycled. Every page of
    /// the run but the last is fully written, as the multi-page writer
    /// leaves it.
    pub open spec fn valid_multi(self, h: BlobHandle) -> bool {
        &&& h.page_id < h.end_page_id
        &&& forall|id: u32| h.page_id <= id <= h.end_page_id ==> #[trigger] self.live(id)
        &&& forall|id: u32|
            h.page_id <= id <= h.end_page_id ==> (#[trigger] self.page_at(id)).generation
                == h.generation
        &&& forall|id: u32|
            h.page_id <= id < h.end_page_id ==> (#[trigger] self.page_at(id)).used
                == self.page_at(id).capacity()
        &&& h.offset <= self.page_at(h.page_id).used
        &&& self.multi_prefix(h, h.end_page_id as int).len() <= h.total_size
        &&& h.total_size - self.multi_prefix(h, h.end_page_id as int).len() <= self.page_at(
            h.end_page_id,
        ).used
    }

    /// A handle that refers to bytes the store wrote and will keep until its
    /// page is removed or recycled.
    pub open spec fn valid_handle(self, h: BlobHandle) -> bool {
        if h.end_page_id == h.page_id {
            self.valid_single(h)
        } else {
            self.valid_multi(h)
        }
    }

    /// The bytes a multi-page read collects from the pages before `id`:
    /// the first page from the handle's offset to its cursor, later pages
    /// from the front to their cursor.
    pub open spec fn multi_prefix(self, h: BlobHandle, id: int) -> Seq<u8>
        recommends
            h.page_id as int <= id <= h.end_page_id as int,
        decreases id - h.page_id,
    {
        if id <= h.page_id {
            Seq::empty()
        } else if id == h.page_id + 1 {
            self.page_at(h.page_id).data@.subrange(
                h.offset as int,
                self.page_at(h.page_id).used as int,
            )
        } else {
            self.multi_prefix(h, id - 1) + self.page_at((id - 1) as u32).data@.subrange(
                0,
                self.page_at((id - 1) as u32).used as int,
            )
        }
    }

    /// The bytes `h` names in the current state.
    pub open spec fn handle_bytes(self, h: BlobHandle) -> Seq<u8> {
        if h.end_page_id == h.page_id {
            self.page_at(h.page_id).data@.subrange(h.offset as int, h.offset + h.size)
        } else {
            self.multi_prefix(h, h.end_page_id as int) + self.page_at(
                h.end_page_id,
            ).data@.subrange(
                0,
                h.total_size - self.multi_prefix(h, h.end_page_id as int).len(),
            )
        }
    }

    /// The handles `get` accepts: the generation matches on every page of
    /// the range, and the requested region is within bounds — checked
    /// against the capacity for a single page, and against the written
    /// cursors along a multi-page range.
    pub open spec fn get_ok(self, h: BlobHandle) -> bool {
        if h.end_page_id == h.page_id {
            &&& self.live(h.page_id)
            &&& self.page_at(h.page_id).generation == h.generation
            &&& h.offset + h.size <= self.page_at(h.page_id).capacity()
        } else {
            &&& h.page_id < h.end_page_id
            &&& forall|id: u32| h.page_id <= id <= h.end_page_id ==> #[trigger] self.live(id)
            &&& forall|id: u32|
                h.page_id <= id <= h.end_page_id ==> (#[trigger] self.page_at(id)).generation
                    == h.generation
            &&& h.offset <= self.page_at(h.page_id).used
            &&& self.multi_prefix(h, h.end_page_id as int).len() <= h.total_size
            &&& h.total_size - self.multi_prefix(h, h.end_page_id as int).len() <= self.page_at(
                h.end_page_id,
            ).capacity()
        }
    }

    /// What `get` returns at time `now_ms`: the handle's bytes, unless the
    /// handle has expired or fails validation.
    pub open spec fn spec_get(self, h: BlobHandle, now_ms: u64) -> Option<Seq<u8>> {
        if h.spec_expired(now_ms, self.config.default_ttl_ms) {
            None
        } else if self.get_ok(h) {
            Some(self.handle_bytes(h))
        } else {
            None
        }
    }

    /// Whether one more page can be allocated: a generation tag and an
    /// identifier (recycled or fresh) are still available.
    pub open spec fn can_allocate(self) -> bool {
        &&& self.generation_counter < u32::MAX
        &&& self.free_pages.ids@.len() > 0 || self.high_water_mark < u32::MAX
    }

    /// A freshly constructed store: only page 0 is live, hot and empty,
    /// the counters have recorded exactly that one allocation, and nothing
    /// has been recycled.
    pub open spec fn spec_fresh(self, config: Config) -> bool {
        &&& self.inv()
        &&& self.config == config
        &&& self.current_page == 0
        &&& self.high_water_mark == 0
        &&& self.generation_counter == 1
        &&& self.live(0)
        &&& self.page_at(0).generation == 0
        &&& self.page_at(0).used == 0
        &&& self.page_at(0).entries@.len() == 0
        &&& self.page_at(0).capacity() == config.page_size
        &&& count_live(self.backend.pages@) == 1
        &&& self.free_pages.ids@.len() == 0
        &&& (forall|id: u32| #[trigger] self.live(id) ==> id == 0)
        &&& self.profiler.total_pages_allocated == 1
        &&& self.profiler.total_capacity_allocated == config.page_size
        &&& self.profiler.total_pages_freed == 0
        &&& self.profiler.total_appends == 0
        &&& self.profiler.total_reads == 0
        &&& self.profiler.total_cleanups == 0
        &&& self.profiler.multi_page_spans == 0
        &&& self.profiler.total_bytes_written == 0
        &&& self.profiler.total_bytes_read == 0
        &&& self.profiler.total_bytes_discarded == 0
        &&& self.profiler.total_capacity_freed == 0
    }

    /// Create a new blob store with the given configuration; page 0 is
    /// allocated as the first hot page.
    pub fn new(config: Config) -> (r: Result<PinnedBlobStore, BlobError>)
        requires
            config.wf(),
        ensures
            r matches Ok(s) && s.spec_fresh(config),
    {
        let mut backend = SegmentedBackend::new();
        backend.allocate_page(0, config.page_size, 0);
        let mut profiler = Profiler::new();
        profiler.record_page_allocated(config.page_size);
        let store = PinnedBlobStore {
            backend,
            config,
            current_page: 0,
            high_water_mark: 0,
            free_pages: FreeList::new(),
            generation_counter: 1,
            profiler,
        };
        Ok(store)
    }

    /// Create a new blob store with the default configuration.
    pub fn with_defaults() -> (r: Result<PinnedBlobStore, BlobError>)
        ensures
            r matches Ok(s) && s.spec_fresh(s.config) && s.config.page_size == 1024 * 1024
                && s.config.prefetch_threshold == 800 && s.config.decay_timeout_ms == 5000
                && s.config.default_ttl_ms == 30000,
    {
        PinnedBlobStore::new(Config::default())
    }

    /// Statistics: the live page count and the hot page identifier.
    pub fn stats(&self) -> (r: BlobStats)
        ensures
            r.page_count == count_live(self.backend.pages@),
            r.current_page_id == self.current_page,
    {
        BlobStats { page_count: self.backend.page_count(), current_page_id: self.current_page }
    }

    /// Access to the profiler.
    pub fn profiler(&self) -> (r: &Profiler)
        ensures
            *r == self.profiler,
    {
        &self.profiler
    }

    /// Allocate a fresh page at the (currently empty) slot `id`, with a
    /// freshly-incremented generation tag.
    fn allocate_page(&mut self, id: u32)
        requires
            old(self).inv(),
            !old(self).live(id),
            !old(self).free_pages.spec_contains(id),
            id <= old(self).high_water_mark,
            old(self).generation_counter < u32::MAX,
        ensures
            final(self).inv(),
            final(self).config == old(self).config,
            final(self).current_page == old(self).current_page,
            final(self).high_water_mark == old(self).high_water_mark,
            final(self).free_pages == old(self).free_pages,
            final(self).generation_counter == old(self).generation_counter + 1,
            final(self).live(id),
            final(self).page_at(id).generation == old(self).generation_counter,
            final(self).page_at(id).id == id,
            final(self).page_at(id).used == 0,
            final(self).page_at(id).entries@.len() == 0,
            final(self).page_at(id).empty_since_ms == 0,
            final(self).page_at(id).capacity() == old(self).config.page_size,
            final(self).page_at(id).data@ == Seq::new(
                old(self).config.page_size as nat,
                |i: int| 0u8,
            ),
            forall|other: u32|
                other != id ==> #[trigger] final(self).live(other) == old(self).live(other) && (old(self).live(other) ==> final(self).page_at(other) == old(self).page_at(other)),
            count_live(final(self).backend.pages@) == count_live(old(self).backend.pages@) + 1,
            final(self).profiler == (Profiler {
                total_pages_allocated: old(self).profiler.total_pages_allocated.saturating_add(1),
                total_capacity_allocated: old(self).profiler.total_capacity_allocated.saturating_add(
                    old(self).config.page_size as u64,
                ),
                ..old(self).profiler
            }),
    {
        let generation: u32 = self.generation_counter;
        self.generation_counter = self.generation_counter + 1;
        self.backend.allocate_page(id, self.config.page_size, generation);
        self.profiler.record_page_allocated(self.config.page_size);
        proof {
            assert forall|pid: u32| self.live(pid) implies self.page_at(pid).wf()
                && self.page_at(pid).id == pid && self.page_at(pid).capacity()
                == self.config.page_size && self.page_at(pid).generation
                < self.generation_counter by {
                if pid != id {
                    assert(old(self).live(pid));
                    assert(self.page_at(pid) == old(self).page_at(pid));
                }
            }
        }
    }

    /// Find and allocate the next appropriate page: pop the smallest
    /// recycled identifier if any, otherwise reserve a fresh identifier
    /// above the high-water mark. Fails with `OutOfMemory` only when
    /// identifiers or generation tags are exhausted, leaving the store
    /// unchanged.
    fn allocate_next_available_page(&mut self) -> (r: Result<u32, BlobError>)
        requires
            old(self).inv(),
        ensures
            final(self).inv(),
            final(self).config == old(self).config,
            final(self).current_page == old(self).current_page,
            !old(self).can_allocate() ==> r == Err::<u32, BlobError>(BlobError::OutOfMemory)
                && *final(self) == *old(self),
            old(self).can_allocate() ==> (r matches Ok(id) && {
                &&& !old(self).live(id)
                &&& final(self).live(id)
                &&& final(self).page_at(id).generation == old(self).generation_counter
                &&& final(self).page_at(id).used == 0
                &&& final(self).page_at(id).entries@.len() == 0
                &&& final(self).page_at(id).capacity() == old(self).config.page_size
                &&& final(self).generation_counter == old(self).generation_counter + 1
                &&& count_live(final(self).backend.pages@) == count_live(
                    old(self).backend.pages@,
                ) + 1
                &&& forall|other: u32|
                    other != id ==> #[trigger] final(self).live(other) == old(self).live(other)
                        && (old(self).live(other) ==> final(self).page_at(other) == old(self).page_at(other))
                &&& (old(self).free_pages.ids@.len() > 0 ==> {
                    &&& id == old(self).free_pages.ids@.last()
                    &&& id <= old(self).high_water_mark
                    &&& forall|x: u32| old(self).free_pages.spec_contains(x) ==> id <= x
                    &&& final(self).high_water_mark == old(self).high_water_mark
                    &&& final(self).free_pages.ids@ == old(self).free_pages.ids@.drop_last()
                })
                &&& (old(self).free_pages.ids@.len() == 0 ==> {
                    &&& id == old(self).high_water_mark + 1
                    &&& final(self).high_water_mark == old(self).high_water_mark + 1
                    &&& final(self).free_pages == old(self).free_pages
                })
                &&& forall|x: u32|
                    #[trigger] final(self).free_pages.spec_contains(x) <==> old(self).free_pages.spec_contains(x) && x != id
            }),
    {
        if self.generation_counter == u32::MAX {
            return Err(BlobError::OutOfMemory);
        }
        if self.free_pages.len() > 0 {
            let popped: Option<u32> = self.free_pages.pop_min();
            match popped {
                Some(recycled_id) => {
                    proof {
                        assert(old(self).free_pages.spec_contains(recycled_id));
                        assert(!self.live(recycled_id));
                        assert forall|pid: u32| self.live(pid) implies self.page_at(pid).wf()
                            && self.page_at(pid).id == pid && self.page_at(pid).capacity()
                            == self.config.page_size && self.page_at(pid).generation
                            < self.generation_counter by {
                            assert(old(self).live(pid));
                            assert(self.page_at(pid) == old(self).page_at(pid));
                        }
                        assert(self.inv());
                    }
                    self.allocate_page(recycled_id);
                    Ok(recycled_id)
                },
                None => {
                    proof {
                        assert(false);
                    }
                    Err(BlobError::OutOfMemory)
                },
            }
        } else {
            if self.high_water_mark == u32::MAX {
                return Err(BlobError::OutOfMemory);
            }
            let next_id: u32 = self.high_water_mark + 1;
            self.high_water_mark = next_id;
            proof {
                assert(!self.live(next_id));
                assert(!self.free_pages.spec_contains(next_id));
                assert forall|pid: u32| self.live(pid) implies self.page_at(pid).wf()
                    && self.page_at(pid).id == pid && self.page_at(pid).capacity()
                    == self.config.page_size && self.page_at(pid).generation
                    < self.generation_counter by {
                    assert(old(self).live(pid));
                    assert(self.page_at(pid) == old(self).page_at(pid));
                }
                assert(self.inv());
            }
            self.allocate_page(next_id);
            Ok(next_id)
        }
    }
}


/// Live pages survive with their identity, generation and capacity, the
/// written prefix of their bytes intact, and a cursor that only grew.
pub open spec fn pages_preserved(pre: PinnedBlobStore, post: PinnedBlobStore) -> bool {
    forall|id: u32| #[trigger] pre.live(id) ==> {
        &&& post.live(id)
        &&& post.page_at(id).generation == pre.page_at(id).generation
        &&& post.page_at(id).capacity() == pre.page_at(id).capacity()
        &&& post.page_at(id).used >= pre.page_at(id).used
        &&& post.page_at(id).used <= post.page_at(id).data@.len()
        &&& post.page_at(id).data@.subrange(0, pre.page_at(id).used as int) == pre.page_at(
            id,
        ).data@.subrange(0, pre.page_at(id).used as int)
    }
}


/// Page preservation composes across two steps.
proof fn lemma_pages_preserved_trans(a: PinnedBlobStore, b: PinnedBlobStore, c: PinnedBlobStore)
    requires
        pages_preserved(a, b),
        pages_preserved(b, c),
    ensures
        pages_preserved(a, c),
{
    assert forall|id: u32| a.live(id) implies c.live(id) && c.page_at(id).generation == a.page_at(
        id,
    ).generation && c.page_at(id).capacity() == a.page_at(id).capacity() && c.page_at(id).used
        >= a.page_at(id).used && c.page_at(id).used <= c.page_at(id).data@.len() && c.page_at(
        id,
    ).data@.subrange(0, a.page_at(id).used as int) == a.page_at(id).data@.subrange(
        0,
        a.page_at(id).used as int,
    ) by {
        assert(b.live(id));
        assert(c.page_at(id).data@.subrange(0, a.page_at(id).used as int) =~= a.page_at(
            id,
        ).data@.subrange(0, a.page_at(id).used as int)) by {
            assert forall|i: int| 0 <= i < a.page_at(id).used implies c.page_at(id).data@[i]
                == a.page_at(id).data@[i] by {
                assert(c.page_at(id).data@.subrange(0, b.page_at(id).used as int)[i]
                    == b.page_at(id).data@.subrange(0, b.page_at(id).used as int)[i]);
                assert(b.page_at(id).data@.subrange(0, a.page_at(id).used as int)[i]
                    == a.page_at(id).data@.subrange(0, a.page_at(id).used as int)[i]);
            }
        }
    }
}

/// A byte below a preserved page's old cursor is unchanged.
proof fn lemma_preserved_byte(pre: PinnedBlobStore, post: PinnedBlobStore, id: u32, i: int)
    requires
        pages_preserved(pre, post),
        pre.live(id),
        pre.page_at(id).used <= pre.page_at(id).data@.len(),
        0 <= i < pre.page_at(id).used,
    ensures
        post.page_at(id).data@[i] == pre.page_at(id).data@[i],
{
    assert(post.page_at(id).data@.subrange(0, pre.page_at(id).used as int)[i] == pre.page_at(
        id,
    ).data@.subrange(0, pre.page_at(id).used as int)[i]);
}

/// The collected prefix of a preserved multi-page handle reads the same
/// bytes after the step.
proof fn lemma_multi_prefix_preserved(
    pre: PinnedBlobStore,
    post: PinnedBlobStore,
    h: BlobHandle,
    id: int,
)
    requires
        pages_preserved(pre, post),
        pre.inv(),
        pre.valid_multi(h),
        h.page_id as int <= id <= h.end_page_id as int,
    ensures
        post.multi_prefix(h, id) == pre.multi_prefix(h, id),
    decreases id - h.page_id,
{
    let s = h.page_id;
    if id <= s {
    } else if id == s + 1 {
        assert(pre.live(s));
        assert(pre.page_at(s).used == pre.page_at(s).capacity());
        assert(post.page_at(s).used == pre.page_at(s).used);
        assert(post.multi_prefix(h, id) =~= pre.multi_prefix(h, id)) by {
            assert forall|i: int|
                h.offset <= i < pre.page_at(s).used implies post.page_at(s).data@[i]
                == pre.page_at(s).data@[i] by {
                lemma_preserved_byte(pre, post, s, i);
            }
        }
    } else {
        let prev = (id - 1) as u32;
        lemma_multi_prefix_preserved(pre, post, h, id - 1);
        assert(s <= prev < h.end_page_id);
        assert(pre.live(prev));
        assert(pre.page_at(prev).used == pre.page_at(prev).capacity());
        assert(post.page_at(prev).used == pre.page_at(prev).used);
        assert(post.page_at(prev).data@.subrange(0, post.page_at(prev).used as int)
            =~= pre.page_at(prev).data@.subrange(0, pre.page_at(prev).used as int)) by {
            assert forall|i: int|
                0 <= i < pre.page_at(prev).used implies post.page_at(prev).data@[i]
                == pre.page_at(prev).data@[i] by {
                lemma_preserved_byte(pre, post, prev, i);
            }
        }
    }
}

/// Valid handles survive a step that preserves the pages, and keep naming
/// the same bytes.
pub proof fn lemma_handles_preserved(pre: PinnedBlobStore, post: PinnedBlobStore, h: BlobHandle)
    requires
        pages_preserved(pre, post),
        pre.inv(),
        pre.valid_handle(h),
    ensures
        post.valid_handle(h),
        post.handle_bytes(h) == pre.handle_bytes(h),
{
    if h.end_page_id == h.page_id {
        let id = h.page_id;
        assert(pre.live(id));
        assert(post.page_at(id).used >= pre.page_at(id).used);
        assert(post.handle_bytes(h) =~= pre.handle_bytes(h)) by {
            assert forall|i: int|
                h.offset <= i < h.offset + h.size implies post.page_at(id).data@[i] == pre.page_at(
                id,
            ).data@[i] by {
                lemma_preserved_byte(pre, post, id, i);
            }
        }
    } else {
        let s = h.page_id;
        let e = h.end_page_id;
        assert forall|id: u32| s <= id <= e implies #[trigger] post.live(id) by {
            assert(pre.live(id));
        }
        assert forall|id: u32|
            s <= id <= e implies (#[trigger] post.page_at(id)).generation == h.generation by {
            assert(pre.live(id));
        }
        assert forall|id: u32|
            s <= id < e implies (#[trigger] post.page_at(id)).used == post.page_at(
            id,
        ).capacity() by {
            assert(pre.live(id));
            assert(pre.page_at(id).used == pre.page_at(id).capacity());
        }
        lemma_multi_prefix_preserved(pre, post, h, e as int);
        assert(pre.live(s));
        assert(post.page_at(s).used >= pre.page_at(s).used);
        assert(h.offset <= post.page_at(s).used);
        assert(pre.live(e));
        assert(post.page_at(e).used >= pre.page_at(e).used);
        let got = pre.multi_prefix(h, e as int).len();
        assert(post.handle_bytes(h) =~= pre.handle_bytes(h)) by {
            assert forall|i: int|
                0 <= i < h.total_size - got implies post.page_at(e).data@[i] == pre.page_at(
                e,
            ).data@[i] by {
                lemma_preserved_byte(pre, post, e, i);
            }
        }
    }
}

impl PinnedBlobStore {
    /// A valid handle is one `get` accepts.
    pub proof fn lemma_valid_get_ok(self, h: BlobHandle)
        requires
            self.inv(),
            self.valid_handle(h),
        ensures
            self.get_ok(h),
    {
        if h.end_page_id == h.page_id {
            assert(self.live(h.page_id));
        } else {
            assert(self.live(h.end_page_id));
        }
    }

    /// Whether a payload of `len` bytes fits the single-page path: it has
    /// room on the hot page, or a replacement page can be allocated.
    pub open spec fn spec_fits_single(self, len: int) -> bool {
        ||| len <= self.page_at(self.current_page).capacity() - self.page_at(
            self.current_page,
        ).used
        ||| self.can_allocate()
    }

    /// Pages needed for a payload of `len` bytes at `page_size` bytes a page.
    pub open spec fn spec_num_pages(len: int, page_size: int) -> int {
        len / page_size + if len % page_size != 0 {
            1int
        } else {
            0int
        }
    }

    /// Whether a multi-page payload of `len` bytes fits: a generation tag is
    /// left, and the contiguous run of fresh identifiers stays within the
    /// 32-bit identifier space.
    pub open spec fn spec_fits_multi(self, len: int) -> bool {
        &&& self.generation_counter < u32::MAX
        &&& Self::spec_num_pages(len, self.config.page_size as int) <= u32::MAX
            - self.high_water_mark
    }

    /// Whether `append` succeeds on a payload of `len` bytes.
    pub open spec fn spec_append_ok(self, len: int) -> bool {
        if len <= 0 {
            false
        } else if len <= self.config.page_size {
            self.spec_fits_single(len)
        } else {
            self.spec_fits_multi(len)
        }
    }
}


/// Two stores with equal components satisfy the invariant together.
proof fn lemma_inv_congruent(a: PinnedBlobStore, b: PinnedBlobStore)
    requires
        a.inv(),
        b.backend.pages@ == a.backend.pages@,
        b.config == a.config,
        b.current_page == a.current_page,
        b.high_water_mark == a.high_water_mark,
        b.free_pages.ids@ == a.free_pages.ids@,
        b.generation_counter == a.generation_counter,
    ensures
        b.inv(),
{
    assert forall|id: u32| b.live(id) implies b.page_at(id).wf() && b.page_at(id).id == id
        && b.page_at(id).capacity() == b.config.page_size && b.page_at(id).generation
        < b.generation_counter by {
        assert(a.live(id));
    }
    assert forall|id: u32| b.free_pages.spec_contains(id) implies !b.live(id) && id
        <= b.high_water_mark by {
        assert(a.free_pages.spec_contains(id));
    }
    assert(b.live(b.current_page)) by {
        assert(a.live(a.current_page));
    }
}


/// Retargeting the hot page to another live page keeps the invariant.
proof fn lemma_inv_retarget(a: PinnedBlobStore, b: PinnedBlobStore)
    requires
        a.inv(),
        b.backend.pages@ == a.backend.pages@,
        b.config == a.config,
        b.high_water_mark == a.high_water_mark,
        b.free_pages.ids@ == a.free_pages.ids@,
        b.generation_counter == a.generation_counter,
        a.live(b.current_page),
    ensures
        b.inv(),
{
    assert forall|id: u32| b.live(id) implies b.page_at(id).wf() && b.page_at(id).id == id
        && b.page_at(id).capacity() == b.config.page_size && b.page_at(id).generation
        < b.generation_counter by {
        assert(a.live(id));
    }
    assert forall|id: u32| b.free_pages.spec_contains(id) implies !b.live(id) && id
        <= b.high_water_mark by {
        assert(a.free_pages.spec_contains(id));
        assert(b.live(id) == a.live(id));
    }
    assert(b.live(b.current_page));
}

impl PinnedBlobStore {
    /// Everything an append changes or keeps, apart from the handle's
    /// timestamp: the error discipline, exact accounting of the hot page,
    /// the high-water mark, the free list, the generation counter and the
    /// live-page count, and the validity of the new handle and of every
    /// handle that existed before.
    pub open spec fn spec_append_effect(
        pre: PinnedBlobStore,
        post: PinnedBlobStore,
        data: Seq<u8>,
        r: Result<BlobHandle, BlobError>,
    ) -> bool {
        let len = data.len() as int;
        let psize = pre.config.page_size as int;
        let hot = pre.page_at(pre.current_page);
        let n = Self::spec_num_pages(len, psize);
        &&& post.inv()
        &&& post.config == pre.config
        &&& pages_preserved(pre, post)
        &&& (forall|h2: BlobHandle|
            pre.valid_handle(h2) ==> post.valid_handle(h2) && post.handle_bytes(h2)
                == pre.handle_bytes(h2))
        &&& post.generation_counter >= pre.generation_counter
        &&& (len == 0 ==> r == Err::<BlobHandle, BlobError>(
            BlobError::DataTooLarge { size: 0, max: pre.config.page_size },
        ) && post == pre)
        &&& ((r is Ok) <==> (len > 0 && pre.spec_append_ok(len)))
        &&& ((r is Err && len > 0) ==> r == Err::<BlobHandle, BlobError>(BlobError::OutOfMemory))
        &&& (1 <= len <= psize ==> {
            // Single-page path: the payload lands on the hot page, rotating
            // first when it no longer fits behind the cursor.
            &&& (hot.used + len <= psize ==> {
                &&& post.current_page == pre.current_page
                &&& post.high_water_mark == pre.high_water_mark
                &&& post.free_pages == pre.free_pages
                &&& post.generation_counter == pre.generation_counter
                &&& count_live(post.backend.pages@) == count_live(pre.backend.pages@)
            })
            &&& (hot.used + len > psize && r is Ok ==> {
                &&& post.generation_counter == pre.generation_counter + 1
                &&& count_live(post.backend.pages@) == count_live(pre.backend.pages@) + 1
                &&& (pre.free_pages.ids@.len() > 0 ==> {
                    // The rotation reuses the smallest recycled identifier.
                    &&& post.current_page == pre.free_pages.ids@.last()
                    &&& post.free_pages.ids@ == pre.free_pages.ids@.drop_last()
                    &&& post.high_water_mark == pre.high_water_mark
                })
                &&& (pre.free_pages.ids@.len() == 0 ==> {
                    &&& post.current_page == pre.high_water_mark + 1
                    &&& post.free_pages == pre.free_pages
                    &&& post.high_water_mark == pre.high_water_mark + 1
                })
            })
            &&& (r is Err ==> post.current_page == pre.current_page && post.free_pages
                == pre.free_pages && post.high_water_mark == pre.high_water_mark
                && post.generation_counter == pre.generation_counter && count_live(
                post.backend.pages@,
            ) == count_live(pre.backend.pages@))
            &&& (r matches Ok(h) ==> {
                &&& h.end_page_id == h.page_id
                &&& h.page_id == post.current_page
                &&& h.size == data.len()
                &&& h.offset as int == (if hot.used + len <= psize {
                    hot.used as int
                } else {
                    0int
                })
                &&& post.page_at(post.current_page).used == h.offset + len
            })
        })
        &&& (len > psize ==> {
            // Multi-page path: a contiguous run of fresh identifiers above
            // the high-water mark; recycling is bypassed and the hot page
            // is never touched.
            &&& post.current_page == pre.current_page
            &&& post.free_pages == pre.free_pages
            &&& (r is Err ==> post == pre)
            &&& (r matches Ok(h) ==> {
                &&& h.page_id == pre.high_water_mark + 1
                &&& h.offset == 0
                &&& h.end_page_id == pre.high_water_mark + n
                &&& post.high_water_mark == pre.high_water_mark + n
                &&& post.generation_counter == pre.generation_counter + 1
                &&& count_live(post.backend.pages@) == count_live(pre.backend.pages@) + n
            })
        })
        &&& (r matches Ok(h) ==> {
            &&& post.valid_handle(h)
            &&& post.ack_ok(h)
            &&& post.handle_bytes(h) == data
            &&& h.total_size == data.len()
            &&& h.generation == post.page_at(h.page_id).generation
        })
    }

    /// Append a payload and return a handle stamped with `now_ms`.
    ///
    /// An empty payload is rejected as too large. A payload of at most
    /// `page_size` bytes goes to the hot page, rotating to the smallest
    /// recycled identifier — or a fresh one above the high-water mark —
    /// when the hot page is full; a larger payload spans a contiguous run
    /// of fresh pages. No append invalidates any other handle, and no
    /// page's cursor ever moves backwards. The append fails, with
    /// `OutOfMemory`, exactly when a page would be needed and the
    /// identifier or generation space is exhausted.
    pub fn append_at(&mut self, data: &[u8], now_ms: u64) -> (r: Result<BlobHandle, BlobError>)
        requires
            old(self).inv(),
        ensures
            Self::spec_append_effect(*old(self), *final(self), data@, r),
            r matches Ok(h) ==> h.timestamp == now_ms,
    {
        let len: usize = data.len();
        if len == 0 {
            return Err(BlobError::DataTooLarge { size: 0, max: self.config.page_size });
        }
        if len > self.config.page_size {
            let r = self.append_multi_page(data, now_ms);
            return r;
        }
        let ghost s0 = *self;
        let first: Result<BlobHandle, BlobError> = self.try_append_hot(data, now_ms);
        match first {
            Ok(h) => {
                proof {
                    assert forall|h2: BlobHandle|
                        s0.valid_handle(h2) implies self.valid_handle(h2) && self.handle_bytes(h2)
                        == s0.handle_bytes(h2) by {
                        lemma_handles_preserved(s0, *self, h2);
                    }
                }
                Ok(h)
            },
            Err(_) => {
                // The hot page is full: rotate to a recycled or fresh page.
                let ghost s1 = *self;
                let rotated: Result<u32, BlobError> = self.allocate_next_available_page();
                let next: u32 = match rotated {
                    Ok(id) => id,
                    Err(err) => {
                        proof {
                            assert(!s0.can_allocate());
                            assert(pages_preserved(s0, *self)) by {
                                assert(self.backend.pages@ == s1.backend.pages@);
                            }
                            assert forall|h2: BlobHandle|
                                s0.valid_handle(h2) implies self.valid_handle(h2)
                                && self.handle_bytes(h2) == s0.handle_bytes(h2) by {
                                lemma_handles_preserved(s0, *self, h2);
                            }
                        }
                        return Err(err);
                    },
                };
                let ghost s2 = *self;
                proof {
                    assert(pages_preserved(s1, s2)) by {
                        assert forall|id: u32| s1.live(id) implies s2.live(id) && s2.page_at(
                            id,
                        ).generation == s1.page_at(id).generation && s2.page_at(id).capacity()
                            == s1.page_at(id).capacity() && s2.page_at(id).used >= s1.page_at(
                            id,
                        ).used && s2.page_at(id).used <= s2.page_at(id).data@.len()
                            && s2.page_at(id).data@.subrange(0, s1.page_at(id).used as int)
                            == s1.page_at(id).data@.subrange(0, s1.page_at(id).used as int) by {
                            assert(id != next);
                            assert(s2.live(id) == s1.live(id));
                            assert(s2.page_at(id) == s1.page_at(id));
                            assert(s1.page_at(id).wf());
                        }
                    }
                }
                self.current_page = next;
                proof {
                    lemma_inv_retarget(s2, *self);
                    assert(self.page_at(self.current_page).used == 0);
                }
                let ghost s3 = *self;
                let second: Result<BlobHandle, BlobError> = self.try_append_hot(data, now_ms);
                match second {
                    Ok(h) => {
                        proof {
                            lemma_pages_preserved_trans(s0, s1, s3);
                            lemma_pages_preserved_trans(s0, s3, *self);
                            assert forall|h2: BlobHandle|
                                s0.valid_handle(h2) implies self.valid_handle(h2)
                                && self.handle_bytes(h2) == s0.handle_bytes(h2) by {
                                lemma_handles_preserved(s0, *self, h2);
                            }
                            assert(s0.can_allocate());
                        }
                        Ok(h)
                    },
                    Err(_) => {
                        proof {
                            assert(false);
                        }
                        Err(BlobError::OutOfMemory)
                    },
                }
            },
        }
    }

    /// Try to append a payload that fits a page to the hot page; fails with
    /// `PageFull`, and changes nothing, exactly when the payload no longer
    /// fits behind the hot page's cursor.
    fn try_append_hot(&mut self, data: &[u8], now_ms: u64) -> (r: Result<BlobHandle, BlobError>)
        requires
            old(self).inv(),
            1 <= data@.len() <= old(self).config.page_size,
        ensures
            final(self).inv(),
            final(self).config == old(self).config,
            final(self).current_page == old(self).current_page,
            final(self).high_water_mark == old(self).high_water_mark,
            final(self).free_pages == old(self).free_pages,
            final(self).generation_counter == old(self).generation_counter,
            pages_preserved(*old(self), *final(self)),
            count_live(final(self).backend.pages@) == count_live(old(self).backend.pages@),
            old(self).page_at(old(self).current_page).used + data@.len() > old(self).config.page_size ==> (r == Err::<BlobHandle, BlobError>(BlobError::PageFull)
                && final(self).backend.pages@ == old(self).backend.pages@),
            old(self).page_at(old(self).current_page).used + data@.len() <= old(self).config.page_size ==> (r matches Ok(h) && ({
                &&& final(self).valid_handle(h)
                &&& final(self).ack_ok(h)
                &&& final(self).handle_bytes(h) == data@
                &&& h.timestamp == now_ms
                &&& h.total_size == data@.len()
                &&& h.end_page_id == h.page_id
                &&& h.size == data@.len()
                &&& h.page_id == old(self).current_page
                &&& h.offset == old(self).page_at(old(self).current_page).used
                &&& final(self).page_at(old(self).current_page).used == old(self).page_at(
                    old(self).current_page,
                ).used + data@.len()
            })),
    {
        let current: u32 = self.current_page;
        let taken: Option<Page> = self.backend.take_page(current);
        let mut page: Page = match taken {
            Some(p) => p,
            None => {
                proof {
                    assert(false);
                }
                return Err(BlobError::OutOfMemory);
            },
        };
        let attempt: Result<(u32, u32), BlobError> = page.try_append(data, now_ms);
        match attempt {
            Ok((offset, size)) => {
                let generation: u32 = page.generation;
                self.backend.put_page(current, page);
                self.profiler.record_append(data.len());
                let h: BlobHandle = BlobHandle::new(current, offset, size, generation, now_ms);
                proof {
                    assert(self.page_at(current).spec_find_entry(h.offset) is Some) by {
                        let es = self.page_at(current).entries@;
                        assert(es[es.len() - 1].offset == h.offset);
                    }
                    self.lemma_single_append_post(*old(self), current, h, data@, now_ms);
                }
                Ok(h)
            },
            Err(e) => {
                proof {
                    assert(e == BlobError::PageFull);
                    assert(page == old(self).page_at(current));
                }
                self.backend.put_page(current, page);
                proof {
                    assert(self.backend.pages@ =~= old(self).backend.pages@);
                    lemma_inv_congruent(*old(self), *self);
                    assert forall|id: u32| old(self).live(id) implies self.live(id)
                        && self.page_at(id).generation == old(self).page_at(id).generation
                        && self.page_at(id).capacity() == old(self).page_at(id).capacity()
                        && self.page_at(id).used >= old(self).page_at(id).used && self.page_at(
                        id,
                    ).used <= self.page_at(id).data@.len() && self.page_at(id).data@.subrange(
                        0,
                        old(self).page_at(id).used as int,
                    ) == old(self).page_at(id).data@.subrange(
                        0,
                        old(self).page_at(id).used as int,
                    ) by {
                        assert(self.page_at(id) == old(self).page_at(id));
                        assert(old(self).page_at(id).wf());
                    }
                }
                Err(BlobError::PageFull)
            },
        }
    }

    /// After a successful single-page append to `id`, the store satisfies
    /// the public contract of `append_at`: the invariant holds, every page
    /// (and with it every valid handle) is preserved, and the new handle is
    /// valid and names exactly the appended bytes.
    proof fn lemma_single_append_post(
        self,
        pre: PinnedBlobStore,
        id: u32,
        h: BlobHandle,
        data: Seq<u8>,
        now_ms: u64,
    )
        requires
            pre.inv(),
            self.config == pre.config,
            self.high_water_mark >= pre.high_water_mark,
            self.generation_counter >= pre.generation_counter,
            self.free_pages.wf(),
            forall|x: u32|
                #[trigger] self.free_pages.spec_contains(x) ==> !self.live(x) && x
                    <= self.high_water_mark,
            self.backend.pages@.len() <= self.high_water_mark as int + 1,
            self.live(self.current_page),
            self.live(id),
            forall|other: u32|
                other != id ==> (#[trigger] self.live(other) == pre.live(other)) && (pre.live(
                    other,
                ) ==> self.page_at(other) == pre.page_at(other)),
            self.page_at(id).wf(),
            self.page_at(id).id == id,
            self.page_at(id).capacity() == pre.config.page_size,
            self.page_at(id).generation < self.generation_counter,
            pre.live(id) ==> {
                &&& self.page_at(id).generation == pre.page_at(id).generation
                &&& self.page_at(id).used >= pre.page_at(id).used
                &&& self.page_at(id).data@.subrange(0, pre.page_at(id).used as int) == pre.page_at(
                    id,
                ).data@.subrange(0, pre.page_at(id).used as int)
            },
            1 <= data.len(),
            h.page_id == id,
            h.end_page_id == id,
            h.generation == self.page_at(id).generation,
            h.offset + data.len() == self.page_at(id).used,
            h.size == data.len(),
            self.page_at(id).data@.subrange(h.offset as int, h.offset + data.len()) == data,
            self.page_at(id).spec_find_entry(h.offset) is Some,
        ensures
            self.inv(),
            self.ack_ok(h),
            pages_preserved(pre, self),
            forall|h2: BlobHandle|
                pre.valid_handle(h2) ==> self.valid_handle(h2) && self.handle_bytes(h2)
                    == pre.handle_bytes(h2),
            self.valid_handle(h),
            self.handle_bytes(h) == data,
    {
        assert forall|pid: u32| self.live(pid) implies self.page_at(pid).wf() && self.page_at(
            pid,
        ).id == pid && self.page_at(pid).capacity() == self.config.page_size && self.page_at(
            pid,
        ).generation < self.generation_counter by {
            if pid != id {
                assert(pre.live(pid));
            }
        }
        assert(self.inv());
        assert forall|pid: u32| pre.live(pid) implies self.live(pid) && self.page_at(
            pid,
        ).generation == pre.page_at(pid).generation && self.page_at(pid).capacity()
            == pre.page_at(pid).capacity() && self.page_at(pid).used >= pre.page_at(pid).used
            && self.page_at(pid).used <= self.page_at(pid).data@.len() && self.page_at(
            pid,
        ).data@.subrange(0, pre.page_at(pid).used as int) == pre.page_at(pid).data@.subrange(
            0,
            pre.page_at(pid).used as int,
        ) by {
            if pid != id {
                assert(self.live(pid) == pre.live(pid));
                assert(self.page_at(pid) == pre.page_at(pid));
            } else {
                assert(self.page_at(id).wf());
            }
        }
        assert(pages_preserved(pre, self));
        assert forall|h2: BlobHandle|
            pre.valid_handle(h2) implies self.valid_handle(h2) && self.handle_bytes(h2)
            == pre.handle_bytes(h2) by {
            lemma_handles_preserved(pre, self, h2);
        }
        assert(self.valid_single(h));
        assert(self.handle_bytes(h) == data);
        assert(self.ack_ok(h)) by {
            assert forall|pid: u32| h.page_id <= pid <= h.end_page_id implies #[trigger] self.live(
                pid,
            ) && self.page_at(pid).generation == h.generation && self.page_at(
                pid,
            ).spec_find_entry(Self::expected_ack_offset(h, pid)) is Some by {
                assert(pid == id);
            }
        }
    }
}


impl PinnedBlobStore {
    /// In a state whose pages `h.page_id .. id` are each fully written with
    /// consecutive `chunk`-sized slices of `data`, the collected prefix up
    /// to `id` is the corresponding prefix of `data`.
    proof fn lemma_run_prefix(self, h: BlobHandle, data: Seq<u8>, chunk: int, id: int)
        requires
            h.page_id < h.end_page_id,
            h.offset == 0,
            chunk >= 1,
            h.page_id as int <= id <= h.end_page_id as int,
            forall|j: u32|
                h.page_id <= j < h.end_page_id ==> #[trigger] self.live(j) && self.page_at(j).used
                    == chunk && self.page_at(j).used <= self.page_at(j).data@.len()
                    && self.page_at(j).data@.subrange(0, chunk) == data.subrange(
                    (j - h.page_id) * chunk,
                    (j - h.page_id) * chunk + chunk,
                ),
            (h.end_page_id - h.page_id) * chunk <= data.len(),
        ensures
            self.multi_prefix(h, id) == data.subrange(0, (id - h.page_id) * chunk),
        decreases id - h.page_id,
    {
        let s = h.page_id as int;
        let e = h.end_page_id as int;
        if id <= s {
            assert((id - s) * chunk == 0) by (nonlinear_arith)
                requires
                    id == s,
            ;
            assert(self.multi_prefix(h, id) =~= data.subrange(0, 0));
        } else {
            assert((id - 1 - s) * chunk + chunk == (id - s) * chunk) by (nonlinear_arith);
            assert(0 <= (id - 1 - s) * chunk && (id - s) * chunk <= (e - s) * chunk) by (
            nonlinear_arith)
                requires
                    s < id <= e,
                    chunk >= 1,
            ;
            let prev = (id - 1) as u32;
            assert(h.page_id <= prev < h.end_page_id);
            assert(self.live(prev));
            assert(self.page_at(prev).data@.subrange(0, chunk) == data.subrange(
                (prev - h.page_id) * chunk,
                (prev - h.page_id) * chunk + chunk,
            ));
            if id == s + 1 {
                assert(prev == h.page_id);
                assert((prev - h.page_id) * chunk == 0) by (nonlinear_arith)
                    requires
                        prev == h.page_id,
                ;
                assert(self.multi_prefix(h, id) == self.page_at(h.page_id).data@.subrange(
                    0,
                    self.page_at(h.page_id).used as int,
                ));
                assert(self.multi_prefix(h, id) == data.subrange(0, (id - s) * chunk));
            } else {
                self.lemma_run_prefix(h, data, chunk, id - 1);
                assert(self.multi_prefix(h, id) == data.subrange(0, (id - 1 - s) * chunk)
                    + data.subrange((id - 1 - s) * chunk, (id - s) * chunk));
                assert(data.subrange(0, (id - 1 - s) * chunk) + data.subrange(
                    (id - 1 - s) * chunk,
                    (id - s) * chunk,
                ) =~= data.subrange(0, (id - s) * chunk));
            }
        }
    }

    /// Append a payload larger than a page across a contiguous run of fresh
    /// identifiers reserved above the high-water mark. The whole run shares
    /// one freshly-incremented generation, which the handle carries; the
    /// run never reuses recycled identifiers and never touches the hot page.
    #[verifier::rlimit(100)]
    fn append_multi_page(&mut self, data: &[u8], now_ms: u64) -> (r: Result<
        BlobHandle,
        BlobError,
    >)
        requires
            old(self).inv(),
            data@.len() > old(self).config.page_size,
        ensures
            final(self).inv(),
            final(self).config == old(self).config,
            final(self).current_page == old(self).current_page,
            pages_preserved(*old(self), *final(self)),
            forall|h2: BlobHandle|
                old(self).valid_handle(h2) ==> final(self).valid_handle(h2) && final(self).handle_bytes(h2) == old(self).handle_bytes(h2),
            final(self).generation_counter >= old(self).generation_counter,
            final(self).free_pages == old(self).free_pages,
            (r is Ok) <==> old(self).spec_fits_multi(data@.len() as int),
            !old(self).spec_fits_multi(data@.len() as int) ==> r == Err::<BlobHandle, BlobError>(
                BlobError::OutOfMemory,
            ) && *final(self) == *old(self),
            r matches Ok(h) ==> ({
                &&& final(self).valid_handle(h)
                &&& final(self).ack_ok(h)
                &&& final(self).handle_bytes(h) == data@
                &&& h.timestamp == now_ms
                &&& h.total_size == data@.len()
                &&& h.page_id == old(self).high_water_mark + 1
                &&& h.offset == 0
                &&& h.end_page_id == old(self).high_water_mark + Self::spec_num_pages(
                    data@.len() as int,
                    old(self).config.page_size as int,
                )
                &&& final(self).high_water_mark == old(self).high_water_mark
                    + Self::spec_num_pages(
                    data@.len() as int,
                    old(self).config.page_size as int,
                )
                &&& final(self).generation_counter == old(self).generation_counter + 1
                &&& count_live(final(self).backend.pages@) == count_live(
                    old(self).backend.pages@,
                ) + Self::spec_num_pages(data@.len() as int, old(self).config.page_size as int)
            }),
    {
        let len: usize = data.len();
        let chunk: usize = self.config.page_size;
        let quotient: usize = len / chunk;
        let remainder: usize = len % chunk;
        proof {
            let li = len as int;
            let ci = chunk as int;
            let qi = quotient as int;
            let ri = remainder as int;
            vstd::arithmetic::div_mod::lemma_fundamental_div_mod(li, ci);
            vstd::arithmetic::div_mod::lemma_mod_bound(li, ci);
            assert(li == ci * qi + ri);
        }
        let num_pages: usize = if remainder != 0 {
            proof {
                let li = len as int;
                let ci = chunk as int;
                let qi = quotient as int;
                let ri = remainder as int;
                assert(ci >= 2);
                assert(ci * qi >= 2 * qi) by (nonlinear_arith)
                    requires
                        ci >= 2,
                        0 <= qi,
                ;
                assert(quotient < len);
            }
            quotient + 1
        } else {
            quotient
        };
        proof {
            let li = len as int;
            let ci = chunk as int;
            let qi = quotient as int;
            let ri = remainder as int;
            let n = num_pages as int;
            vstd::arithmetic::div_mod::lemma_fundamental_div_mod(li, ci);
            vstd::arithmetic::div_mod::lemma_mod_bound(li, ci);
            assert(li == ci * qi + ri);
            assert(n == qi + if ri != 0 { 1int } else { 0int });
            assert(n >= 2 && (n - 1) * ci < li && li <= n * ci) by (nonlinear_arith)
                requires
                    li == ci * qi + ri,
                    0 <= ri,
                    ri < ci,
                    li > ci,
                    ci >= 1,
                    n == qi + if ri != 0 { 1int } else { 0int },
            ;
            assert(n == Self::spec_num_pages(li, ci));
        }
        if self.generation_counter == u32::MAX {
            return Err(BlobError::OutOfMemory);
        }
        if num_pages as u64 > (u32::MAX - self.high_water_mark) as u64 {
            return Err(BlobError::OutOfMemory);
        }
        let start: u32 = self.high_water_mark + 1;
        let end: u32 = self.high_water_mark + num_pages as u32;
        let generation: u32 = self.generation_counter;
        self.generation_counter = generation + 1;
        self.high_water_mark = end;
        // Reserve and allocate the whole run under one generation.
        let mut k: usize = 0;
        while k < num_pages
            invariant
                old(self).inv(),
                num_pages >= 2,
                chunk == old(self).config.page_size,
                1 <= chunk <= u32::MAX,
                start == old(self).high_water_mark + 1,
                end == old(self).high_water_mark + num_pages,
                end <= u32::MAX,
                (num_pages - 1) * chunk < len <= num_pages * chunk,
                len == data@.len(),
                0 <= k <= num_pages,
                self.config == old(self).config,
                self.current_page == old(self).current_page,
                self.high_water_mark == end,
                self.free_pages == old(self).free_pages,
                self.generation_counter == generation + 1,
                generation == old(self).generation_counter,
                generation < u32::MAX,
                self.profiler.start_ms == old(self).profiler.start_ms,
                count_live(self.backend.pages@) == count_live(old(self).backend.pages@) + k,
                self.backend.pages@.len() <= if k == 0 {
                    old(self).high_water_mark as int + 1
                } else {
                    start + k
                },
                forall|j: u32| start <= j < start + k ==> #[trigger] self.live(j),
                forall|j: u32|
                    start <= j < start + k ==> (#[trigger] self.page_at(j)).id == j
                        && self.page_at(j).generation == generation && self.page_at(j).used == 0
                        && self.page_at(j).entries@.len() == 0 && self.page_at(j).empty_since_ms
                        == 0 && self.page_at(j).capacity() == chunk && self.page_at(j).wf(),
                forall|j: u32|
                    !(start <= j < start + k) ==> #[trigger] self.live(j) == old(self).live(j) && (
                    old(self).live(j) ==> self.page_at(j) == old(self).page_at(j)),
            decreases num_pages - k,
        {
            let id: u32 = start + k as u32;
            let ghost it0 = *self;
            proof {
                assert(!self.live(id)) by {
                    if self.live(id) {
                        if start <= id < start + k {
                        } else {
                            assert(old(self).live(id));
                            assert(id < old(self).backend.pages@.len());
                        }
                    }
                }
            }
            self.backend.allocate_page(id, chunk, generation);
            self.profiler.record_page_allocated(chunk);
            k = k + 1;
            proof {
                assert forall|j: u32| start <= j < start + k implies #[trigger] self.live(j) by {
                    if j != id {
                        assert(it0.live(j));
                    }
                }
                assert forall|j: u32|
                    start <= j < start + k implies (#[trigger] self.page_at(j)).id == j
                    && self.page_at(j).generation == generation && self.page_at(j).used == 0
                    && self.page_at(j).entries@.len() == 0 && self.page_at(j).empty_since_ms == 0
                    && self.page_at(j).capacity() == chunk && self.page_at(j).wf() by {
                    if j != id {
                        assert(it0.live(j));
                        assert(self.live(j));
                        assert(self.page_at(j) == it0.page_at(j));
                    }
                }
                assert forall|j: u32|
                    !(start <= j < start + k) implies #[trigger] self.live(j) == old(self).live(j)
                    && (old(self).live(j) ==> self.page_at(j) == old(self).page_at(j)) by {
                    assert(j != id);
                    assert(self.live(j) == it0.live(j));
                    if it0.live(j) {
                        assert(self.page_at(j) == it0.page_at(j));
                    }
                }
            }
        }
        // Fill the run left to right; every page but the last ends full.
        let ghost reserved = *self;
        let mut written: usize = 0;
        let mut k2: usize = 0;
        while k2 < num_pages
            invariant
                old(self).inv(),
                num_pages >= 2,
                chunk == old(self).config.page_size,
                1 <= chunk <= u32::MAX,
                start == old(self).high_water_mark + 1,
                end == old(self).high_water_mark + num_pages,
                end <= u32::MAX,
                (num_pages - 1) * chunk < len <= num_pages * chunk,
                len == data@.len(),
                0 <= k2 <= num_pages,
                self.config == old(self).config,
                self.current_page == old(self).current_page,
                self.high_water_mark == end,
                self.free_pages == old(self).free_pages,
                self.generation_counter == generation + 1,
                generation == old(self).generation_counter,
                self.backend.pages@.len() == reserved.backend.pages@.len(),
                self.backend.pages@.len() <= end as int + 1,
                count_live(self.backend.pages@) == count_live(old(self).backend.pages@)
                    + num_pages,
                written == if k2 < num_pages {
                    k2 * chunk
                } else {
                    len as int
                },
                written <= len,
                forall|j: u32| start <= j <= end ==> #[trigger] self.live(j),
                forall|j: u32|
                    start <= j <= end ==> (#[trigger] self.page_at(j)).id == j && self.page_at(
                        j,
                    ).generation == generation && self.page_at(j).wf() && self.page_at(
                        j,
                    ).capacity() == chunk,
                forall|j: u32|
                    start <= j < start + k2 ==> (#[trigger] self.page_at(j)).used == (if j < end {
                        chunk as int
                    } else {
                        len - (num_pages - 1) * chunk
                    }),
                forall|j: u32|
                    start <= j < start + k2 ==> (#[trigger] self.page_at(j)).data@.subrange(
                        0,
                        self.page_at(j).used as int,
                    ) == data@.subrange(
                        (j - start) * chunk,
                        (j - start) * chunk + self.page_at(j).used,
                    ),
                forall|j: u32|
                    start <= j < start + k2 ==> (#[trigger] self.page_at(j)).entries@.len() == 1
                        && self.page_at(j).entries@[0].offset == 0,
                forall|j: u32|
                    start + k2 <= j <= end ==> (#[trigger] self.page_at(j)).used == 0
                        && self.page_at(j).entries@.len() == 0,
                forall|j: u32|
                    !(start <= j <= end) ==> #[trigger] self.live(j) == old(self).live(j) && (old(self).live(j) ==> self.page_at(j) == old(self).page_at(j)),
            decreases num_pages - k2,
        {
            let id: u32 = start + k2 as u32;
            let ghost it0 = *self;
            proof {
                assert(start + k2 <= id <= end);
                assert(self.live(id));
                assert(self.page_at(id).used == 0);
                assert(self.page_at(id).wf());
                assert(self.page_at(id).capacity() == chunk);
                assert(self.page_at(id).generation == generation);
                assert(self.page_at(id).entries@.len() == 0);
                assert(self.page_at(id).id == id);
                assert((k2 + 1) * chunk == k2 * chunk + chunk) by (nonlinear_arith);
                assert(k2 * chunk <= (num_pages - 1) * chunk) by (nonlinear_arith)
                    requires
                        0 <= k2 <= num_pages - 1,
                        chunk >= 1,
                ;
            }
            let taken: Option<Page> = self.backend.take_page(id);
            let mut page: Page = match taken {
                Some(p) => p,
                None => {
                    proof {
                        assert(false);
                    }
                    return Err(BlobError::OutOfMemory);
                },
            };
            let rest: &[u8] = vstd::slice::slice_subrange(data, written, len);
            let attempt: Result<(u32, u32), BlobError> = page.try_append_partial(rest, now_ms);
            match attempt {
                Ok((_offset, wrote)) => {
                    proof {
                        assert(page.used == if id < end {
                            chunk as int
                        } else {
                            len - (num_pages - 1) * chunk
                        }) by {
                            if (k2 as int) < num_pages - 1 {
                                assert(len - written > chunk) by (nonlinear_arith)
                                    requires
                                        written == k2 * chunk,
                                        k2 <= num_pages - 2,
                                        (num_pages - 1) * chunk < len,
                                        chunk >= 1,
                                ;
                            } else {
                                assert(written == (num_pages - 1) * chunk);
                                assert(len - written <= chunk);
                            }
                        }
                    }
                    self.backend.put_page(id, page);
                    proof {
                        assert(self.live(id));
                        assert(self.page_at(id).id == id);
                        assert(self.page_at(id).generation == generation);
                        assert(self.page_at(id).capacity() == chunk);
                        assert(self.page_at(id).wf());
                        assert(self.page_at(id).used == (if id < end {
                            chunk as int
                        } else {
                            len - (num_pages - 1) * chunk
                        }));
                        assert(wrote as int == self.page_at(id).used);
                    }
                    written = written + wrote as usize;
                    k2 = k2 + 1;
                    proof {
                        assert(self.page_at(id).data@.subrange(0, self.page_at(id).used as int)
                            == data@.subrange(
                            (id - start) * chunk,
                            (id - start) * chunk + self.page_at(id).used,
                        )) by {
                            let u = self.page_at(id).used as int;
                            assert(rest@ == data@.subrange(written - u, len as int));
                            assert(self.page_at(id).data@.subrange(0, u) == rest@.subrange(0, u));
                            assert(rest@.subrange(0, u) =~= data@.subrange(
                                written - u,
                                written as int,
                            ));
                            assert((id - start) * chunk == written - u);
                        }
                        if k2 < num_pages {
                            assert(written == k2 * chunk);
                            assert(k2 * chunk <= (num_pages - 1) * chunk) by (nonlinear_arith)
                                requires
                                    0 <= k2 <= num_pages - 1,
                                    chunk >= 1,
                            ;
                            assert(written <= len);
                        }
                        assert forall|j: u32| start <= j <= end implies #[trigger] self.live(
                            j,
                        ) by {
                            if j != id {
                                assert(it0.live(j));
                            }
                        }
                        assert forall|j: u32|
                            start <= j <= end implies (#[trigger] self.page_at(j)).id == j
                            && self.page_at(j).generation == generation && self.page_at(j).wf()
                            && self.page_at(j).capacity() == chunk by {
                            if j != id {
                                assert(it0.live(j));
                                assert(self.live(j));
                                assert(self.page_at(j) == it0.page_at(j));
                            }
                        }
                        assert forall|j: u32|
                            start <= j < start + k2 implies (#[trigger] self.page_at(j)).used == (
                            if j < end {
                                chunk as int
                            } else {
                                len - (num_pages - 1) * chunk
                            }) && self.page_at(j).data@.subrange(0, self.page_at(j).used as int)
                            == data@.subrange(
                            (j - start) * chunk,
                            (j - start) * chunk + self.page_at(j).used,
                        ) by {
                            if j != id {
                                assert(it0.live(j));
                                assert(self.live(j));
                                assert(self.page_at(j) == it0.page_at(j));
                            }
                        }
                        assert forall|j: u32|
                            start <= j < start + k2 implies (#[trigger] self.page_at(
                            j,
                        )).entries@.len() == 1 && self.page_at(j).entries@[0].offset == 0 by {
                            if j != id {
                                assert(it0.live(j));
                                assert(self.page_at(j) == it0.page_at(j));
                            } else {
                                assert(it0.page_at(id).entries@.len() == 0);
                            }
                        }
                        assert forall|j: u32|
                            start + k2 <= j <= end implies (#[trigger] self.page_at(j)).used == 0
                            && self.page_at(j).entries@.len() == 0 by {
                            assert(j != id);
                            assert(it0.live(j));
                            assert(self.live(j));
                            assert(self.page_at(j) == it0.page_at(j));
                        }
                        assert forall|j: u32|
                            !(start <= j <= end) implies #[trigger] self.live(j) == old(self).live(
                            j,
                        ) && (old(self).live(j) ==> self.page_at(j) == old(self).page_at(j)) by {
                            assert(j != id);
                            assert(self.live(j) == it0.live(j));
                            if it0.live(j) {
                                assert(self.page_at(j) == it0.page_at(j));
                            }
                        }
                    }
                },
                Err(_) => {
                    proof {
                        assert(false);
                    }
                    return Err(BlobError::OutOfMemory);
                },
            }
        }
        let ghost filled = *self;
        self.profiler.record_append(len);
        self.profiler.record_multi_page_span();
        let h: BlobHandle = BlobHandle::new_multi_page(
            start,
            0,
            end,
            len as u64,
            generation,
            now_ms,
        );
        proof {
            assert(self.backend == filled.backend);
            assert forall|j: u32| start <= j <= end implies #[trigger] self.live(j) by {
                assert(filled.live(j));
            }
            assert forall|j: u32|
                start <= j <= end implies (#[trigger] self.page_at(j)).id == j && self.page_at(
                j,
            ).generation == generation && self.page_at(j).wf() && self.page_at(j).capacity()
                == chunk by {
                assert(filled.live(j));
                assert(filled.page_at(j) == self.page_at(j));
            }
            assert forall|j: u32|
                start <= j <= end implies (#[trigger] self.page_at(j)).used == (if j < end {
                    chunk as int
                } else {
                    len - (num_pages - 1) * chunk
                }) by {
                assert(filled.live(j));
                assert(filled.page_at(j) == self.page_at(j));
            }
            assert forall|j: u32|
                start <= j <= end implies (#[trigger] self.page_at(j)).data@.subrange(
                0,
                self.page_at(j).used as int,
            ) == data@.subrange(
                (j - start) * chunk,
                (j - start) * chunk + self.page_at(j).used,
            ) by {
                assert(filled.live(j));
                assert(filled.page_at(j) == self.page_at(j));
            }
            assert forall|j: u32|
                !(start <= j <= end) implies #[trigger] self.live(j) == old(self).live(j) && (old(
                self).live(j) ==> self.page_at(j) == old(self).page_at(j)) by {
                assert(self.live(j) == filled.live(j));
                if filled.live(j) {
                    assert(self.page_at(j) == filled.page_at(j));
                }
            }
            assert forall|j: u32|
                start <= j <= end implies (#[trigger] self.page_at(j)).entries@.len() == 1
                && self.page_at(j).entries@[0].offset == 0 by {
                assert(filled.live(j));
                assert(filled.page_at(j) == self.page_at(j));
            }
            self.lemma_multi_append_post(*old(self), h, data@, chunk as int, num_pages as int);
        }
        Ok(h)
    }

    /// After the multi-page writer has filled its run, the store satisfies
    /// the public contract of `append_at`: the invariant holds, every old
    /// page (and with it every valid handle) is preserved, and the new
    /// handle is valid and names exactly the appended bytes.
    proof fn lemma_multi_append_post(
        self,
        pre: PinnedBlobStore,
        h: BlobHandle,
        data: Seq<u8>,
        chunk: int,
        num_pages: int,
    )
        requires
            pre.inv(),
            self.config == pre.config,
            chunk == pre.config.page_size,
            1 <= chunk <= u32::MAX,
            num_pages >= 2,
            (num_pages - 1) * chunk < data.len() <= num_pages * chunk,
            h.page_id == pre.high_water_mark + 1,
            h.end_page_id == pre.high_water_mark + num_pages,
            h.end_page_id <= u32::MAX,
            h.offset == 0,
            h.total_size == data.len(),
            h.generation == pre.generation_counter,
            self.current_page == pre.current_page,
            self.high_water_mark == h.end_page_id,
            self.free_pages == pre.free_pages,
            self.generation_counter == pre.generation_counter + 1,
            self.backend.pages@.len() <= h.end_page_id as int + 1,
            forall|j: u32| h.page_id <= j <= h.end_page_id ==> #[trigger] self.live(j),
            forall|j: u32|
                h.page_id <= j <= h.end_page_id ==> (#[trigger] self.page_at(j)).id == j
                    && self.page_at(j).generation == h.generation && self.page_at(j).wf()
                    && self.page_at(j).capacity() == chunk,
            forall|j: u32|
                h.page_id <= j <= h.end_page_id ==> (#[trigger] self.page_at(j)).used == (if j
                    < h.end_page_id {
                    chunk as int
                } else {
                    data.len() - (num_pages - 1) * chunk
                }),
            forall|j: u32|
                h.page_id <= j <= h.end_page_id ==> (#[trigger] self.page_at(j)).data@.subrange(
                    0,
                    self.page_at(j).used as int,
                ) == data.subrange(
                    (j - h.page_id) * chunk,
                    (j - h.page_id) * chunk + self.page_at(j).used,
                ),
            forall|j: u32|
                h.page_id <= j <= h.end_page_id ==> (#[trigger] self.page_at(j)).entries@.len()
                    == 1 && self.page_at(j).entries@[0].offset == 0,
            forall|j: u32|
                !(h.page_id <= j <= h.end_page_id) ==> #[trigger] self.live(j) == pre.live(j) && (
                pre.live(j) ==> self.page_at(j) == pre.page_at(j)),
        ensures
            self.inv(),
            self.ack_ok(h),
            pages_preserved(pre, self),
            forall|h2: BlobHandle|
                pre.valid_handle(h2) ==> self.valid_handle(h2) && self.handle_bytes(h2)
                    == pre.handle_bytes(h2),
            self.valid_handle(h),
            self.handle_bytes(h) == data,
    {
        let s = h.page_id;
        let e = h.end_page_id;
        assert forall|pid: u32| self.live(pid) implies self.page_at(pid).wf() && self.page_at(
            pid,
        ).id == pid && self.page_at(pid).capacity() == self.config.page_size && self.page_at(
            pid,
        ).generation < self.generation_counter by {
            if !(s <= pid <= e) {
                assert(pre.live(pid));
            }
        }
        assert forall|x: u32| self.free_pages.spec_contains(x) implies !self.live(x) && x
            <= self.high_water_mark by {
            assert(pre.free_pages.spec_contains(x));
            assert(x <= pre.high_water_mark);
        }
        assert(self.live(self.current_page)) by {
            assert(pre.live(pre.current_page));
            assert(pre.current_page < pre.backend.pages@.len());
            assert(pre.current_page <= pre.high_water_mark);
        }
        assert(self.inv());
        assert forall|pid: u32| pre.live(pid) implies self.live(pid) && self.page_at(
            pid,
        ).generation == pre.page_at(pid).generation && self.page_at(pid).capacity()
            == pre.page_at(pid).capacity() && self.page_at(pid).used >= pre.page_at(pid).used
            && self.page_at(pid).used <= self.page_at(pid).data@.len() && self.page_at(
            pid,
        ).data@.subrange(0, pre.page_at(pid).used as int) == pre.page_at(pid).data@.subrange(
            0,
            pre.page_at(pid).used as int,
        ) by {
            assert(pid < pre.backend.pages@.len());
            assert(pid <= pre.high_water_mark);
            assert(!(s <= pid <= e));
            assert(self.live(pid) == pre.live(pid));
            assert(self.page_at(pid) == pre.page_at(pid));
            assert(pre.page_at(pid).wf());
        }
        assert(pages_preserved(pre, self));
        assert forall|h2: BlobHandle|
            pre.valid_handle(h2) implies self.valid_handle(h2) && self.handle_bytes(h2)
            == pre.handle_bytes(h2) by {
            lemma_handles_preserved(pre, self, h2);
        }
        // The new handle is valid and reads back exactly `data`.
        assert(self.live(s));
        assert(self.live(e));
        assert forall|j: u32|
            h.page_id <= j < h.end_page_id implies #[trigger] self.live(j) && self.page_at(j).used
            == chunk && self.page_at(j).used <= self.page_at(j).data@.len() && self.page_at(
            j,
        ).data@.subrange(0, chunk) == data.subrange(
            (j - h.page_id) * chunk,
            (j - h.page_id) * chunk + chunk,
        ) by {
            assert(self.live(j));
            assert(self.page_at(j).wf());
        }
        assert((e - s) as int * chunk <= data.len() && (e - s) as int * chunk == (num_pages - 1)
            * chunk) by (nonlinear_arith)
            requires
                e as int - s as int == num_pages - 1,
                (num_pages - 1) * chunk < data.len(),
                chunk >= 1,
        ;
        self.lemma_run_prefix(h, data, chunk, e as int);
        let got = self.multi_prefix(h, e as int).len();
        assert(self.multi_prefix(h, e as int) == data.subrange(0, (e as int - s as int) * chunk));
        assert(got == (num_pages - 1) * chunk);
        assert(self.valid_multi(h)) by {
            assert(h.offset <= self.page_at(s).used);
            assert(got <= h.total_size);
            assert(h.total_size - got <= self.page_at(e).used);
            assert forall|j: u32|
                h.page_id <= j < h.end_page_id implies (#[trigger] self.page_at(j)).used
                == self.page_at(j).capacity() by {
                assert(self.live(j));
            }
            assert forall|j: u32|
                h.page_id <= j <= h.end_page_id implies (#[trigger] self.page_at(j)).generation
                == h.generation by {
                assert(self.live(j));
            }
            assert forall|j: u32| h.page_id <= j <= h.end_page_id implies #[trigger] self.live(
                j,
            ) by {
            }
        }
        assert(self.page_at(e).used == data.len() - got);
        assert(self.page_at(e).data@.subrange(0, data.len() - got) == data.subrange(
            got as int,
            data.len() as int,
        )) by {
            assert(self.page_at(e).data@.subrange(0, self.page_at(e).used as int)
                == data.subrange(
                (e - s) as int * chunk,
                (e - s) as int * chunk + self.page_at(e).used,
            ));
            assert((e - s) as int * chunk == got);
        }
        assert(self.handle_bytes(h) == data.subrange(0, got as int) + data.subrange(
            got as int,
            data.len() as int,
        ));
        assert(data.subrange(0, got as int) + data.subrange(got as int, data.len() as int)
            =~= data);
        assert(self.ack_ok(h)) by {
            assert forall|pid: u32|
                h.page_id <= pid <= h.end_page_id implies (#[trigger] self.page_at(
                pid,
            )).spec_find_entry(Self::expected_ack_offset(h, pid)) is Some by {
                assert(self.live(pid));
                assert(self.page_at(pid).entries@[0].offset == 0);
                assert(Self::expected_ack_offset(h, pid) == 0);
            }
        }
    }
}



/// Append a copy of `src[from .. from + len]` to `dst`.
fn extend_from_range(dst: &mut Vec<u8>, src: &Vec<u8>, from: usize, len: usize)
    requires
        from + len <= src@.len(),
    ensures
        final(dst)@ == old(dst)@ + src@.subrange(from as int, from + len),
{
    let n: usize = src.len();
    proof {
        assert(from + len <= n);
    }
    let part: &[u8] = vstd::slice::slice_subrange(src.as_slice(), from, from + len);
    let ghost before = dst@;
    dst.extend_from_slice(part);
    proof {
        assert(dst@ =~= before + part@);
    }
}

impl PinnedBlobStore {
    /// Retrieve a copy of the payload `handle` names, judging expiry at
    /// `now_ms`. Returns the bytes exactly when the handle is not expired
    /// and passes validation; every failure collapses to an empty result.
    pub fn get_at(&mut self, handle: &BlobHandle, now_ms: u64) -> (r: Option<Vec<u8>>)
        requires
            old(self).inv(),
        ensures
            final(self).inv(),
            final(self).backend == old(self).backend,
            final(self).config == old(self).config,
            final(self).current_page == old(self).current_page,
            final(self).high_water_mark == old(self).high_water_mark,
            final(self).free_pages == old(self).free_pages,
            final(self).generation_counter == old(self).generation_counter,
            match r {
                Some(v) => old(self).spec_get(*handle, now_ms) == Some(v@),
                None => old(self).spec_get(*handle, now_ms) is None,
            },
            old(self).valid_handle(*handle) && !handle.spec_expired(
                now_ms,
                old(self).config.default_ttl_ms,
            ) ==> (r matches Some(v) && v@ == old(self).handle_bytes(*handle)),
    {
        proof {
            if self.valid_handle(*handle) {
                self.lemma_valid_get_ok(*handle);
            }
        }
        if handle.is_expired_at(now_ms, self.config.default_ttl_ms) {
            return None;
        }
        if handle.is_multi_page() {
            return self.get_multi_page(handle, now_ms);
        }
        let fetched: Option<Vec<u8>> = match self.backend.get_page(handle.page_id) {
            Some(page) => {
                if page.generation != handle.generation {
                    None
                } else {
                    page.get(handle.offset, handle.size)
                }
            },
            None => None,
        };
        match fetched {
            Some(v) => {
                self.profiler.record_read(v.len());
                proof {
                    lemma_inv_congruent(*old(self), *self);
                }
                Some(v)
            },
            None => None,
        }
    }

    /// Collect a multi-page payload: the first page from the handle's
    /// offset to its cursor, middle pages whole, and the last page up to
    /// the remaining length.
    fn get_multi_page(&mut self, handle: &BlobHandle, now_ms: u64) -> (r: Option<Vec<u8>>)
        requires
            old(self).inv(),
            handle.page_id != handle.end_page_id,
            !handle.spec_expired(now_ms, old(self).config.default_ttl_ms),
        ensures
            final(self).inv(),
            final(self).backend == old(self).backend,
            final(self).config == old(self).config,
            final(self).current_page == old(self).current_page,
            final(self).high_water_mark == old(self).high_water_mark,
            final(self).free_pages == old(self).free_pages,
            final(self).generation_counter == old(self).generation_counter,
            match r {
                Some(v) => old(self).spec_get(*handle, now_ms) == Some(v@),
                None => old(self).spec_get(*handle, now_ms) is None,
            },
    {
        let s: u32 = handle.page_id;
        let e: u32 = handle.end_page_id;
        if e < s {
            return None;
        }
        let mut result: Vec<u8> = Vec::new();
        let mut id: u32 = s;
        while id < e
            invariant
                self.inv(),
                *self == *old(self),
                !handle.spec_expired(now_ms, old(self).config.default_ttl_ms),
                s == handle.page_id,
                e == handle.end_page_id,
                s < e,
                s <= id <= e,
                forall|j: u32| s <= j < id ==> #[trigger] self.live(j),
                forall|j: u32|
                    s <= j < id ==> (#[trigger] self.page_at(j)).generation == handle.generation,
                id > s ==> handle.offset <= self.page_at(s).used,
                result@ == self.multi_prefix(*handle, id as int),
            decreases e - id,
        {
            let page: &Page = match self.backend.get_page(id) {
                Some(p) => p,
                None => {
                    proof {
                        assert(!self.live(id));
                        assert(s <= id <= e);
                        assert(!self.get_ok(*handle));
                        assert(self.spec_get(*handle, now_ms) is None);
                    }
                    return None;
                },
            };
            if page.generation != handle.generation {
                proof {
                    assert(self.live(id));
                    assert(self.page_at(id).generation != handle.generation);
                    assert(!self.get_ok(*handle));
                    assert(self.spec_get(*handle, now_ms) is None);
                }
                return None;
            }
            proof {
                assert(self.live(id));
                assert(self.page_at(id).wf());
            }
            if id == s {
                if handle.offset as usize > page.used {
                    return None;
                }
                let take_len: usize = page.used - handle.offset as usize;
                extend_from_range(&mut result, &page.data, handle.offset as usize, take_len);
            } else {
                extend_from_range(&mut result, &page.data, 0, page.used);
            }
            id = id + 1;
            proof {
                assert(result@ == self.multi_prefix(*handle, id as int));
            }
        }
        // The last page: up to the payload's remaining length, bounds
        // checked against the capacity.
        let page: &Page = match self.backend.get_page(e) {
            Some(p) => p,
            None => {
                proof {
                    assert(!self.live(e));
                    assert(!self.get_ok(*handle));
                    assert(self.spec_get(*handle, now_ms) is None);
                }
                return None;
            },
        };
        if page.generation != handle.generation {
            proof {
                assert(self.live(e));
                assert(self.page_at(e).generation != handle.generation);
                assert(!self.get_ok(*handle));
                assert(self.spec_get(*handle, now_ms) is None);
            }
            return None;
        }
        proof {
            assert(self.live(e));
            assert(self.page_at(e).wf());
        }
        let got_u64: u64 = result.len() as u64;
        if handle.total_size < got_u64 {
            proof {
                assert(self.multi_prefix(*handle, e as int).len() > handle.total_size);
                assert(!self.get_ok(*handle));
                assert(self.spec_get(*handle, now_ms) is None);
            }
            return None;
        }
        let remaining_u64: u64 = handle.total_size - got_u64;
        if remaining_u64 > page.data.len() as u64 {
            proof {
                assert(handle.total_size - self.multi_prefix(*handle, e as int).len()
                    > self.page_at(e).capacity());
                assert(!self.get_ok(*handle));
                assert(self.spec_get(*handle, now_ms) is None);
            }
            return None;
        }
        extend_from_range(&mut result, &page.data, 0, remaining_u64 as usize);
        proof {
            assert(self.get_ok(*handle));
            assert(result@ == self.handle_bytes(*handle));
        }
        let ghost collected = *self;
        if result.len() > 0 {
            self.profiler.record_read(result.len());
            self.profiler.record_multi_page_span();
        }
        proof {
            lemma_inv_congruent(collected, *self);
        }
        Some(result)
    }

    /// Retrieve a copy of the payload `handle` names, judging expiry by the
    /// wall clock. Whatever the clock returns, a non-empty result names a
    /// handle that passed validation and holds exactly its bytes, and a
    /// handle that fails validation yields an empty result.
    pub fn get(&mut self, handle: &BlobHandle) -> (r: Option<Vec<u8>>)
        requires
            old(self).inv(),
        ensures
            final(self).inv(),
            final(self).backend == old(self).backend,
            final(self).config == old(self).config,
            final(self).current_page == old(self).current_page,
            final(self).high_water_mark == old(self).high_water_mark,
            final(self).free_pages == old(self).free_pages,
            final(self).generation_counter == old(self).generation_counter,
            r matches Some(v) ==> old(self).get_ok(*handle) && v@ == old(self).handle_bytes(
                *handle,
            ),
            !old(self).get_ok(*handle) ==> r is None,
    {
        let now: u64 = now_millis();
        self.get_at(handle, now)
    }
}


impl PinnedBlobStore {
    /// The entry offset an acknowledgement targets on page `id` of the
    /// handle's range: the handle's offset on the first page, the front on
    /// every later page.
    pub open spec fn expected_ack_offset(h: BlobHandle, id: u32) -> u32 {
        if id == h.page_id {
            h.offset
        } else {
            0u32
        }
    }

    /// The handles `acknowledge` accepts: every page of the range is live
    /// with the handle's generation and holds an entry at the targeted
    /// offset.
    pub open spec fn ack_ok(self, h: BlobHandle) -> bool {
        &&& h.page_id <= h.end_page_id
        &&& forall|id: u32| h.page_id <= id <= h.end_page_id ==> #[trigger] self.live(id)
        &&& forall|id: u32|
            h.page_id <= id <= h.end_page_id ==> (#[trigger] self.page_at(id)).generation
                == h.generation
        &&& forall|id: u32|
            h.page_id <= id <= h.end_page_id ==> (#[trigger] self.page_at(id)).spec_find_entry(
                Self::expected_ack_offset(h, id),
            ) is Some
    }

    /// Acknowledge the payload `handle` names so that its pages can retire.
    ///
    /// The whole range is validated first; only a handle whose every page is
    /// live, generation-matched and still holds the entry is acknowledged,
    /// and then the entry on every page of the range is marked. A rejected
    /// handle changes nothing.
    pub fn acknowledge(&mut self, handle: &BlobHandle) -> (r: bool)
        requires
            old(self).inv(),
        ensures
            final(self).inv(),
            final(self).config == old(self).config,
            final(self).current_page == old(self).current_page,
            final(self).high_water_mark == old(self).high_water_mark,
            final(self).free_pages == old(self).free_pages,
            final(self).generation_counter == old(self).generation_counter,
            r == old(self).ack_ok(*handle),
            !r ==> *final(self) == *old(self),
            forall|id: u32| #[trigger] final(self).live(id) == old(self).live(id),
            forall|id: u32|
                old(self).live(id) && !(handle.page_id <= id <= handle.end_page_id) ==> final(self).page_at(id) == old(self).page_at(id),
            r ==> forall|id: u32|
                handle.page_id <= id <= handle.end_page_id ==> {
                    let pre = old(self).page_at(id);
                    let idx = pre.spec_find_entry(Self::expected_ack_offset(*handle, id))->Some_0;
                    (#[trigger] final(self).page_at(id)).entries@ == crate::page::ack_at(
                        pre.entries@,
                        idx,
                    ) && final(self).page_at(id).id == pre.id && final(self).page_at(id).generation
                        == pre.generation && final(self).page_at(id).data == pre.data && final(self).page_at(id).used == pre.used && final(self).page_at(id).empty_since_ms
                        == pre.empty_since_ms
                },
            pages_preserved(*old(self), *final(self)),
            forall|h2: BlobHandle|
                old(self).valid_handle(h2) ==> final(self).valid_handle(h2) && final(self).handle_bytes(h2) == old(self).handle_bytes(h2),
    {
        let s: u32 = handle.page_id;
        let e: u32 = handle.end_page_id;
        if e < s {
            return false;
        }
        let count: u64 = (e - s) as u64;
        // Validation pass: the whole range must be acknowledgeable.
        let mut k: u64 = 0;
        while k <= count
            invariant
                self.inv(),
                *self == *old(self),
                s == handle.page_id,
                e == handle.end_page_id,
                s <= e,
                count == e - s,
                0 <= k <= count + 1,
                forall|id: u32| s <= id < s + k ==> #[trigger] self.live(id),
                forall|id: u32|
                    s <= id < s + k ==> (#[trigger] self.page_at(id)).generation
                        == handle.generation,
                forall|id: u32|
                    s <= id < s + k ==> (#[trigger] self.page_at(id)).spec_find_entry(
                        Self::expected_ack_offset(*handle, id),
                    ) is Some,
            decreases count + 1 - k,
        {
            let id: u32 = s + k as u32;
            let page: &Page = match self.backend.get_page(id) {
                Some(p) => p,
                None => {
                    proof {
                        assert(!self.live(id));
                        assert(!self.ack_ok(*handle));
                    }
                    return false;
                },
            };
            if page.generation != handle.generation {
                proof {
                    assert(self.live(id));
                    assert(!self.ack_ok(*handle));
                }
                return false;
            }
            let off: u32 = if id == s {
                handle.offset
            } else {
                0
            };
            if !page.has_entry(off) {
                proof {
                    assert(self.live(id));
                    assert(self.page_at(id).spec_find_entry(
                        Self::expected_ack_offset(*handle, id),
                    ) is None);
                    assert(!self.ack_ok(*handle));
                }
                return false;
            }
            k = k + 1;
        }
        proof {
            assert(self.ack_ok(*handle));
        }
        // Marking pass: acknowledge the entry on every page of the range.
        let mut k2: u64 = 0;
        while k2 <= count
            invariant
                self.inv(),
                old(self).inv(),
                old(self).ack_ok(*handle),
                s == handle.page_id,
                e == handle.end_page_id,
                s <= e,
                count == e - s,
                0 <= k2 <= count + 1,
                self.config == old(self).config,
                self.current_page == old(self).current_page,
                self.high_water_mark == old(self).high_water_mark,
                self.free_pages == old(self).free_pages,
                self.generation_counter == old(self).generation_counter,
                self.profiler == old(self).profiler,
                forall|id: u32| #[trigger] self.live(id) == old(self).live(id),
                forall|id: u32|
                    old(self).live(id) && !(s <= id < s + k2) ==> #[trigger] self.page_at(id)
                        == old(self).page_at(id),
                forall|id: u32|
                    s <= id < s + k2 ==> {
                        let pre = old(self).page_at(id);
                        let idx = pre.spec_find_entry(
                            Self::expected_ack_offset(*handle, id),
                        )->Some_0;
                        (#[trigger] self.page_at(id)).entries@ == crate::page::ack_at(
                            pre.entries@,
                            idx,
                        ) && self.page_at(id).id == pre.id && self.page_at(id).generation
                            == pre.generation && self.page_at(id).data == pre.data && self.page_at(
                            id,
                        ).used == pre.used && self.page_at(id).empty_since_ms == pre.empty_since_ms
                    },
            decreases count + 1 - k2,
        {
            let id: u32 = s + k2 as u32;
            let ghost it0 = *self;
            proof {
                assert(old(self).live(id));
                assert(self.live(id));
                assert(self.page_at(id) == old(self).page_at(id));
            }
            let taken: Option<Page> = self.backend.take_page(id);
            let mut page: Page = match taken {
                Some(p) => p,
                None => {
                    proof {
                        assert(false);
                    }
                    return false;
                },
            };
            let off: u32 = if id == s {
                handle.offset
            } else {
                0
            };
            let found: bool = page.acknowledge_entry(off);
            proof {
                assert(found);
            }
            self.backend.put_page(id, page);
            k2 = k2 + 1;
            proof {
                assert forall|j: u32| #[trigger] self.live(j) == old(self).live(j) by {
                    if j != id {
                        assert(self.live(j) == it0.live(j));
                    }
                }
                assert forall|j: u32|
                    old(self).live(j) && !(s <= j < s + k2) implies #[trigger] self.page_at(j)
                    == old(self).page_at(j) by {
                    assert(j != id);
                    assert(self.live(j) == it0.live(j));
                    assert(self.page_at(j) == it0.page_at(j));
                }
                assert forall|j: u32|
                    s <= j < s + k2 implies {
                    let pre = old(self).page_at(j);
                    let idx = pre.spec_find_entry(Self::expected_ack_offset(*handle, j))->Some_0;
                    (#[trigger] self.page_at(j)).entries@ == crate::page::ack_at(
                        pre.entries@,
                        idx,
                    ) && self.page_at(j).id == pre.id && self.page_at(j).generation
                        == pre.generation && self.page_at(j).data == pre.data && self.page_at(
                        j,
                    ).used == pre.used && self.page_at(j).empty_since_ms == pre.empty_since_ms
                } by {
                    if j != id {
                        assert(it0.live(j));
                        assert(self.page_at(j) == it0.page_at(j));
                    }
                }
                assert forall|pid: u32| self.live(pid) implies self.page_at(pid).wf()
                    && self.page_at(pid).id == pid && self.page_at(pid).capacity()
                    == self.config.page_size && self.page_at(pid).generation
                    < self.generation_counter by {
                    if pid != id {
                        assert(it0.live(pid));
                        assert(self.page_at(pid) == it0.page_at(pid));
                    }
                }
                assert forall|x: u32| self.free_pages.spec_contains(x) implies !self.live(x) && x
                    <= self.high_water_mark by {
                    assert(old(self).free_pages.spec_contains(x));
                    assert(self.live(x) == old(self).live(x));
                }
                assert(self.live(self.current_page)) by {
                    assert(old(self).live(old(self).current_page));
                }
                assert(self.inv());
            }
        }
        proof {
            assert forall|pid: u32| old(self).live(pid) implies self.live(pid) && self.page_at(
                pid,
            ).generation == old(self).page_at(pid).generation && self.page_at(pid).capacity()
                == old(self).page_at(pid).capacity() && self.page_at(pid).used >= old(self).page_at(pid).used && self.page_at(pid).used <= self.page_at(pid).data@.len()
                && self.page_at(pid).data@.subrange(0, old(self).page_at(pid).used as int) == old(self).page_at(pid).data@.subrange(0, old(self).page_at(pid).used as int) by {
                assert(self.live(pid) == old(self).live(pid));
                assert(old(self).page_at(pid).wf());
                if s <= pid < s + (count + 1) {
                    assert(self.page_at(pid).data == old(self).page_at(pid).data);
                    assert(self.page_at(pid).used == old(self).page_at(pid).used);
                } else {
                    assert(self.page_at(pid) == old(self).page_at(pid));
                }
            }
            assert(pages_preserved(*old(self), *self));
            assert forall|h2: BlobHandle|
                old(self).valid_handle(h2) implies self.valid_handle(h2) && self.handle_bytes(h2)
                == old(self).handle_bytes(h2) by {
                lemma_handles_preserved(*old(self), *self, h2);
            }
        }
        true
    }
}


impl PinnedBlobStore {
    /// Whether cleanup at time `now_ms` removes the page at slot `id`: it
    /// is live, is not the hot page, every entry is retired, the retirement
    /// mark was already set, and the mark is older than the decay window.
    pub open spec fn spec_decays(self, id: u32, now_ms: u64) -> bool {
        &&& self.live(id)
        &&& id != self.current_page
        &&& self.page_at(id).spec_retired_page(now_ms, self.config.default_ttl_ms)
        &&& self.page_at(id).empty_since_ms != 0
        &&& now_ms - self.page_at(id).empty_since_ms > self.config.decay_timeout_ms
    }

    /// The number of slots below `upto` that cleanup at `now_ms` removes.
    pub open spec fn count_decays(self, now_ms: u64, upto: int) -> int
        decreases upto,
    {
        if upto <= 0 {
            0
        } else {
            self.count_decays(now_ms, upto - 1) + if self.spec_decays((upto - 1) as u32, now_ms) {
                1int
            } else {
                0int
            }
        }
    }

    /// Sweep all pages, judging retirement and decay at time `now_ms`.
    ///
    /// The sweep never touches the hot page. Every other live page first
    /// has its retirement mark committed or cleared; a page whose mark has
    /// outlived the decay window is removed and its identifier pushed onto
    /// the free list. Returns the number of pages removed.
    pub fn cleanup_at(&mut self, now_ms: u64) -> (r: usize)
        requires
            old(self).inv(),
        ensures
            final(self).inv(),
            final(self).config == old(self).config,
            final(self).current_page == old(self).current_page,
            final(self).high_water_mark == old(self).high_water_mark,
            final(self).generation_counter == old(self).generation_counter,
            final(self).live(old(self).current_page),
            forall|id: u32|
                #[trigger] final(self).live(id) <==> (old(self).live(id) && !old(self).spec_decays(
                    id,
                    now_ms,
                )),
            forall|id: u32|
                #[trigger] final(self).live(id) ==> final(self).page_at(id) == (if id == old(self).current_page {
                    old(self).page_at(id)
                } else {
                    old(self).page_at(id).spec_marked(now_ms, old(self).config.default_ttl_ms)
                }),
            forall|x: u32|
                #[trigger] final(self).free_pages.spec_contains(x) <==> (old(self).free_pages.spec_contains(x) || old(self).spec_decays(x, now_ms)),
            r == old(self).count_decays(now_ms, old(self).backend.pages@.len() as int),
            count_live(final(self).backend.pages@) == count_live(old(self).backend.pages@) - r,
    {
        let n: usize = self.backend.pages.len();
        let current: u32 = self.current_page;
        let ttl: u64 = self.config.default_ttl_ms;
        let decay_timeout: u64 = self.config.decay_timeout_ms;
        let mut freed: usize = 0;
        let mut i: usize = 0;
        while i < n
            invariant
                old(self).inv(),
                self.inv(),
                n == old(self).backend.pages@.len(),
                n == self.backend.pages@.len(),
                n <= u32::MAX + 1,
                current == old(self).current_page,
                ttl == old(self).config.default_ttl_ms,
                decay_timeout == old(self).config.decay_timeout_ms,
                0 <= i <= n,
                self.config == old(self).config,
                self.current_page == old(self).current_page,
                self.high_water_mark == old(self).high_water_mark,
                self.generation_counter == old(self).generation_counter,
                freed <= i,
                freed == old(self).count_decays(now_ms, i as int),
                count_live(self.backend.pages@) == count_live(old(self).backend.pages@) - freed,
                forall|id: u32|
                    id >= i ==> #[trigger] self.live(id) == old(self).live(id) && (old(self).live(
                        id,
                    ) ==> self.page_at(id) == old(self).page_at(id)),
                forall|id: u32|
                    id < i ==> (#[trigger] self.live(id) <==> (old(self).live(id) && !old(self).spec_decays(id, now_ms))),
                forall|id: u32|
                    id < i && self.live(id) ==> #[trigger] self.page_at(id) == (if id == current {
                        old(self).page_at(id)
                    } else {
                        old(self).page_at(id).spec_marked(now_ms, ttl)
                    }),
                forall|x: u32|
                    #[trigger] self.free_pages.spec_contains(x) <==> (old(self).free_pages.spec_contains(x) || (x < i && old(self).spec_decays(x, now_ms))),
            decreases n - i,
        {
            let id: u32 = i as u32;
            let ghost it0 = *self;
            if id == current {
                i = i + 1;
                proof {
                    assert(!old(self).spec_decays(id, now_ms));
                }
                continue;
            }
            let taken: Option<Page> = self.backend.take_page(id);
            let mut page: Page = match taken {
                None => {
                    i = i + 1;
                    proof {
                        assert(!it0.live(id));
                        assert(it0.live(id) == old(self).live(id));
                        assert(!old(self).live(id));
                        assert(!old(self).spec_decays(id, now_ms));
                        assert(self.backend.pages@ == it0.backend.pages@);
                        lemma_inv_congruent(it0, *self);
                        assert forall|j: u32|
                            j >= i implies #[trigger] self.live(j) == old(self).live(j) && (old(self).live(j) ==> self.page_at(j) == old(self).page_at(j)) by {
                            assert(self.live(j) == it0.live(j));
                            if it0.live(j) {
                                assert(self.page_at(j) == it0.page_at(j));
                            }
                        }
                        assert forall|j: u32|
                            j < i implies (#[trigger] self.live(j) <==> (old(self).live(j) && !old(self).spec_decays(j, now_ms))) by {
                            assert(self.live(j) == it0.live(j));
                        }
                        assert forall|j: u32|
                            j < i && self.live(j) implies #[trigger] self.page_at(j) == (if j
                            == current {
                            old(self).page_at(j)
                        } else {
                            old(self).page_at(j).spec_marked(now_ms, ttl)
                        }) by {
                            assert(it0.live(j));
                            assert(self.page_at(j) == it0.page_at(j));
                        }
                    }
                    continue;
                },
                Some(p) => p,
            };
            proof {
                assert(it0.live(id));
                assert(old(self).live(id));
                assert(page == old(self).page_at(id));
                assert(old(self).page_at(id).wf());
            }
            page.mark_empty_if_needed(now_ms, ttl);
            let decays: bool = page.should_decay(now_ms, decay_timeout, ttl);
            proof {
                assert(page == old(self).page_at(id).spec_marked(now_ms, ttl));
                assert(decays == old(self).spec_decays(id, now_ms)) by {
                    let pre = old(self).page_at(id);
                    if pre.spec_retired_page(now_ms, ttl) && pre.empty_since_ms == 0 {
                        // The mark was committed just now, so the window has
                        // not elapsed; neither side holds.
                        assert(page.empty_since_ms == now_ms);
                    }
                }
            }
            if decays {
                let used_bytes: usize = page.used;
                proof {
                    assert(!old(self).free_pages.spec_contains(id));
                    assert(!self.free_pages.spec_contains(id));
                }
                self.free_pages.push(id);
                self.profiler.record_page_cleanup(self.config.page_size, used_bytes);
                freed = freed + 1;
            } else {
                self.backend.put_page(id, page);
            }
            i = i + 1;
            proof {
                assert forall|j: u32|
                    j >= i implies #[trigger] self.live(j) == old(self).live(j) && (old(self).live(
                    j,
                ) ==> self.page_at(j) == old(self).page_at(j)) by {
                    assert(j != id);
                    assert(self.live(j) == it0.live(j));
                    if it0.live(j) {
                        assert(self.page_at(j) == it0.page_at(j));
                    }
                }
                assert forall|j: u32|
                    j < i implies (#[trigger] self.live(j) <==> (old(self).live(j) && !old(self).spec_decays(j, now_ms))) by {
                    if j != id {
                        assert(self.live(j) == it0.live(j));
                    }
                }
                assert forall|j: u32|
                    j < i && self.live(j) implies #[trigger] self.page_at(j) == (if j == current {
                    old(self).page_at(j)
                } else {
                    old(self).page_at(j).spec_marked(now_ms, ttl)
                }) by {
                    if j != id {
                        assert(it0.live(j));
                        assert(self.page_at(j) == it0.page_at(j));
                    }
                }
                assert forall|pid: u32| self.live(pid) implies self.page_at(pid).wf()
                    && self.page_at(pid).id == pid && self.page_at(pid).capacity()
                    == self.config.page_size && self.page_at(pid).generation
                    < self.generation_counter by {
                    if pid != id {
                        assert(it0.live(pid));
                        assert(self.page_at(pid) == it0.page_at(pid));
                    } else {
                        assert(old(self).page_at(id).wf());
                    }
                }
                assert forall|x: u32| self.free_pages.spec_contains(x) implies !self.live(x) && x
                    <= self.high_water_mark by {
                    if old(self).free_pages.spec_contains(x) {
                        assert(!old(self).live(x));
                        assert(x != id || !it0.live(id));
                        assert(self.live(x) == old(self).live(x) || x < i);
                    }
                    assert(x == id || self.live(x) == it0.live(x));
                }
                assert(self.live(self.current_page)) by {
                    assert(it0.live(current));
                }
                assert(self.inv());
            }
        }
        let ghost swept = *self;
        if freed > 0 {
            self.profiler.record_cleanup();
        }
        proof {
            lemma_inv_congruent(swept, *self);
            assert(self.live(old(self).current_page)) by {
                assert(swept.live(current));
            }
            assert forall|id: u32|
                #[trigger] self.live(id) <==> (old(self).live(id) && !old(self).spec_decays(
                id,
                now_ms,
            )) by {
                assert(self.live(id) == swept.live(id));
                if id >= n {
                    assert(!old(self).live(id));
                }
            }
            assert forall|id: u32|
                #[trigger] self.live(id) implies self.page_at(id) == (if id == old(self).current_page {
                old(self).page_at(id)
            } else {
                old(self).page_at(id).spec_marked(now_ms, ttl)
            }) by {
                assert(swept.live(id));
                assert(self.page_at(id) == swept.page_at(id));
                assert(id < n);
            }
            assert forall|x: u32|
                #[trigger] self.free_pages.spec_contains(x) <==> (old(self).free_pages.spec_contains(x) || old(self).spec_decays(x, now_ms)) by {
                if old(self).spec_decays(x, now_ms) {
                    assert(x < n);
                }
            }
        }
        freed
    }

    /// Sweep all pages, judging retirement and decay by the wall clock.
    ///
    /// Whatever the clock returns: the hot page survives untouched, no
    /// surviving page's identity, bytes or entries change, removed
    /// identifiers join the free list, and the count of removed pages is
    /// returned.
    pub fn cleanup_acknowledged(&mut self) -> (r: usize)
        requires
            old(self).inv(),
        ensures
            final(self).inv(),
            final(self).config == old(self).config,
            final(self).current_page == old(self).current_page,
            final(self).high_water_mark == old(self).high_water_mark,
            final(self).generation_counter == old(self).generation_counter,
            final(self).live(old(self).current_page),
            final(self).page_at(old(self).current_page) == old(self).page_at(
                old(self).current_page,
            ),
            forall|id: u32| #[trigger] final(self).live(id) ==> old(self).live(id),
            forall|id: u32|
                #[trigger] final(self).live(id) ==> {
                    let pre = old(self).page_at(id);
                    let post = final(self).page_at(id);
                    post.id == pre.id && post.generation == pre.generation && post.data == pre.data
                        && post.used == pre.used && post.entries == pre.entries
                },
            forall|x: u32|
                old(self).free_pages.spec_contains(x) ==> #[trigger] final(self).free_pages.spec_contains(x),
            forall|x: u32|
                #[trigger] final(self).free_pages.spec_contains(x) ==> (old(self).free_pages.spec_contains(x) || old(self).live(x)),
            count_live(final(self).backend.pages@) == count_live(old(self).backend.pages@) - r,
    {
        let now: u64 = now_millis();
        let r: usize = self.cleanup_at(now);
        proof {
            assert forall|id: u32|
                #[trigger] self.live(id) implies {
                let pre = old(self).page_at(id);
                let post = self.page_at(id);
                post.id == pre.id && post.generation == pre.generation && post.data == pre.data
                    && post.used == pre.used && post.entries == pre.entries
            } by {
                assert(old(self).live(id));
            }
        }
        r
    }
}


impl PinnedBlobStore {
    /// Append a payload and return a handle stamped with the wall clock.
    ///
    /// Whatever the clock returns, the append has the full effect stated by
    /// `spec_append_effect`: an empty payload is rejected as too large; the
    /// append succeeds exactly when the payload is non-empty and a page can
    /// hold or be allocated for it, and then the handle is valid,
    /// acknowledgeable, and names exactly the appended bytes; the hot page,
    /// high-water mark, free list, generation counter and live-page count
    /// are accounted for exactly; and no other valid handle is invalidated.
    pub fn append(&mut self, data: &[u8]) -> (r: Result<BlobHandle, BlobError>)
        requires
            old(self).inv(),
        ensures
            Self::spec_append_effect(*old(self), *final(self), data@, r),
    {
        let now: u64 = now_millis();
        self.append_at(data, now)
    }

    /// Round-trip law: a handle the store holds as valid, read before its
    /// time-to-live has passed, yields exactly the bytes that were appended
    /// for it.
    pub proof fn lemma_round_trip(s: PinnedBlobStore, h: BlobHandle, now_ms: u64)
        requires
            s.inv(),
            s.valid_handle(h),
            !h.spec_expired(now_ms, s.config.default_ttl_ms),
        ensures
            s.spec_get(h, now_ms) == Some(s.handle_bytes(h)),
    {
        s.lemma_valid_get_ok(h);
    }

    /// Generation bound: a valid handle always carries a generation below
    /// the store's counter, so any later allocation tags its page with a
    /// generation no valid handle has ever carried.
    pub proof fn lemma_handle_generation_bound(s: PinnedBlobStore, h: BlobHandle)
        requires
            s.inv(),
            s.valid_handle(h),
        ensures
            h.generation < s.generation_counter,
    {
        if h.end_page_id == h.page_id {
            assert(s.live(h.page_id));
        } else {
            assert(s.live(h.page_id));
        }
    }

    /// Generation-safety law: a handle whose generation does not match the
    /// page now occupying its identifier — as after the identifier has been
    /// recycled — reads nothing, at any time.
    pub proof fn lemma_generation_safety(s: PinnedBlobStore, h: BlobHandle, now_ms: u64)
        requires
            s.inv(),
            s.live(h.page_id) ==> s.page_at(h.page_id).generation != h.generation,
        ensures
            s.spec_get(h, now_ms) is None,
    {
        if !h.spec_expired(now_ms, s.config.default_ttl_ms) {
            if h.end_page_id == h.page_id {
                assert(!s.get_ok(h));
            } else {
                if s.get_ok(h) {
                    assert(s.live(h.page_id));
                    assert(s.page_at(h.page_id).generation == h.generation);
                }
            }
        }
    }

    /// Monotonic-cursor law: across any step that preserves the pages — an
    /// append or an acknowledgement — a live page's cursor only grows, and
    /// the bytes below the old cursor are untouched.
    pub proof fn lemma_used_monotone(pre: PinnedBlobStore, post: PinnedBlobStore, id: u32)
        requires
            pages_preserved(pre, post),
            pre.live(id),
        ensures
            post.live(id),
            post.page_at(id).used >= pre.page_at(id).used,
            post.page_at(id).data@.subrange(0, pre.page_at(id).used as int) == pre.page_at(
                id,
            ).data@.subrange(0, pre.page_at(id).used as int),
    {
    }

    /// Free-list law: no identifier appears twice on the free list, and no
    /// identifier on the free list has a live page or exceeds the
    /// high-water mark.
    pub proof fn lemma_free_list_bounded(s: PinnedBlobStore, i: int, j: int)
        requires
            s.inv(),
            0 <= i < s.free_pages.ids@.len(),
            0 <= j < s.free_pages.ids@.len(),
            i != j,
        ensures
            s.free_pages.ids@[i] != s.free_pages.ids@[j],
            !s.live(s.free_pages.ids@[i]),
            s.free_pages.ids@[i] <= s.high_water_mark,
    {
        assert(s.free_pages.spec_contains(s.free_pages.ids@[i]));
    }

    /// Hot-page persistence law: no cleanup, at any time, removes the page
    /// whose identifier is the hot page at its entry.
    pub proof fn lemma_hot_page_persistence(s: PinnedBlobStore, now_ms: u64)
        requires
            s.inv(),
        ensures
            !s.spec_decays(s.current_page, now_ms),
    {
    }

    /// Recycling law: while recycled identifiers are available, the next
    /// page rotation reuses the smallest of them, which lies at or below
    /// the high-water mark; fresh identifiers above the mark are drawn only
    /// when the free list is empty.
    pub proof fn lemma_recycling(s: PinnedBlobStore)
        requires
            s.inv(),
            s.free_pages.ids@.len() > 0,
        ensures
            s.free_pages.spec_contains(s.free_pages.ids@.last()),
            s.free_pages.ids@.last() <= s.high_water_mark,
            !s.live(s.free_pages.ids@.last()),
            forall|x: u32|
                #[trigger] s.free_pages.spec_contains(x) ==> s.free_pages.ids@.last() <= x,
    {
        let last = s.free_pages.ids@.last();
        assert(s.free_pages.spec_contains(last));
        assert forall|x: u32| #[trigger] s.free_pages.spec_contains(x) implies last <= x by {
            let k = choose|k: int| 0 <= k < s.free_pages.ids@.len() && s.free_pages.ids@[k] == x;
            if k < s.free_pages.ids@.len() - 1 {
                assert(s.free_pages.ids@[k] > s.free_pages.ids@[s.free_pages.ids@.len() - 1]);
            }
        }
    }
}

} // verus!
