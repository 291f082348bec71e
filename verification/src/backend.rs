//! The storage backend: a collection of pages keyed by identifier.
//!
//! Pages live in a dense table indexed by page identifier. The recycling
//! discipline of the store keeps the active identifier range compact, so the
//! table stays small under steady-state churn.

use vstd::prelude::*;

use crate::page::Page;
use vstd::std_specs::vec::vec_index_mut;

verus! {

/// The number of slots in `pages` that hold a live page.
pub open spec fn count_live(pages: Seq<Option<Page>>) -> int
    decreases pages.len(),
{
    if pages.len() == 0 {
        0
    } else {
        count_live(pages.drop_last()) + if pages.last() is Some {
            1int
        } else {
            0int
        }
    }
}

/// Keyed page storage backed by a dense table of slots.
pub struct SegmentedBackend {
    /// Slot `i` holds the page with identifier `i`, if that page is live.
    pub pages: Vec<Option<Page>>,
}

impl SegmentedBackend {
    /// Whether a live page occupies the slot `id`.
    pub open spec fn live(self, id: u32) -> bool {
        id < self.pages@.len() && self.pages@[id as int] is Some
    }

    /// The page at slot `id`.
    pub open spec fn page_at(self, id: u32) -> Page
        recommends
            self.live(id),
    {
        self.pages@[id as int]->Some_0
    }

    /// Create an empty backend.
    pub fn new() -> (r: Self)
        ensures
            r.pages@.len() == 0,
            count_live(r.pages@) == 0,
    {
        SegmentedBackend { pages: Vec::new() }
    }

    /// Allocate a fresh zero-filled page at slot `id`; a slot already holding
    /// a live page is left untouched.
    pub fn allocate_page(&mut self, id: u32, size: usize, generation: u32)
        requires
            size <= u32::MAX,
        ensures
            old(self).live(id) ==> final(self).pages@ == old(self).pages@,
            !old(self).live(id) ==> {
                &&& final(self).live(id)
                &&& final(self).page_at(id) == (Page {
                    id,
                    generation,
                    data: final(self).page_at(id).data,
                    used: 0,
                    entries: final(self).page_at(id).entries,
                    empty_since_ms: 0,
                })
                &&& final(self).page_at(id).data@ == Seq::new(size as nat, |i: int| 0u8)
                &&& final(self).page_at(id).entries@ == Seq::<crate::page::EntryMetadata>::empty()
                &&& final(self).page_at(id).wf()
                &&& count_live(final(self).pages@) == count_live(old(self).pages@) + 1
            },
            forall|other: u32|
                other != id ==> #[trigger] final(self).live(other) == old(self).live(other)
                    && (old(self).live(other) ==> final(self).page_at(other) == old(self).page_at(
                    other,
                )),
            final(self).pages@.len() >= old(self).pages@.len(),
            final(self).pages@.len() == if id as int <= old(self).pages@.len() - 1 {
                old(self).pages@.len() as int
            } else {
                id as int + 1
            },
            forall|other: u32| old(self).live(other) ==> #[trigger] final(self).live(other),
    {
        let idx: usize = id as usize;
        while self.pages.len() <= idx
            invariant
                idx < old(self).pages@.len() ==> self.pages@ == old(self).pages@,
                self.pages@.len() <= idx + 1 || self.pages@.len() == old(self).pages@.len(),
                forall|k: int|
                    0 <= k < old(self).pages@.len() ==> self.pages@[k] == old(self).pages@[k],
                self.pages@.len() >= old(self).pages@.len(),
                forall|k: int| old(self).pages@.len() <= k < self.pages@.len() ==> self.pages@[k] is None,
                count_live(self.pages@) == count_live(old(self).pages@),
            decreases idx + 1 - self.pages.len(),
        {
            let ghost before = self.pages@;
            self.pages.push(None);
            proof {
                assert(self.pages@.drop_last() =~= before);
            }
        }
        if self.pages[idx].is_none() {
            let page: Page = Page::new(id, size, generation);
            let ghost before = self.pages@;
            self.pages[idx] = Some(page);
            proof {
                lemma_count_live_update(before, idx as int, Some(page));
            }
        }
    }

    /// Look up the page at slot `id`.
    pub fn get_page(&self, id: u32) -> (r: Option<&Page>)
        ensures
            self.live(id) ==> (r matches Some(p) && *p == self.page_at(id)),
            !self.live(id) ==> r is None,
    {
        let idx: usize = id as usize;
        if idx < self.pages.len() {
            match &self.pages[idx] {
                Some(p) => Some(p),
                None => None,
            }
        } else {
            None
        }
    }

    /// Take the page at slot `id` out of the backend, leaving the slot empty.
    pub fn take_page(&mut self, id: u32) -> (r: Option<Page>)
        ensures
            old(self).live(id) ==> {
                &&& r == Some(old(self).page_at(id))
                &&& final(self).pages@ == old(self).pages@.update(
                    id as int,
                    None::<Page>,
                )
                &&& count_live(final(self).pages@) == count_live(old(self).pages@) - 1
            },
            !old(self).live(id) ==> r is None && final(self).pages@ == old(self).pages@,
            !final(self).live(id),
            forall|other: u32|
                other != id ==> #[trigger] final(self).live(other) == old(self).live(other)
                    && (old(self).live(other) ==> final(self).page_at(other) == old(self).page_at(
                    other,
                )),
    {
        let idx: usize = id as usize;
        if idx < self.pages.len() {
            let ghost before = self.pages@;
            let mut taken: Option<Page> = None;
            let slot_ref: &mut Option<Page> = vec_index_mut(&mut self.pages, idx);
            core::mem::swap(&mut taken, slot_ref);
            proof {
                assert(self.pages@ == before.update(idx as int, None::<Page>));
                lemma_count_live_update(before, idx as int, None);
                if before[idx as int] is None {
                    assert(self.pages@ =~= before);
                }
            }
            taken
        } else {
            None
        }
    }

    /// Put a page back into the empty slot `id`.
    pub fn put_page(&mut self, id: u32, page: Page)
        requires
            !old(self).live(id),
            id < old(self).pages@.len(),
        ensures
            final(self).pages@ == old(self).pages@.update(id as int, Some(page)),
            final(self).live(id),
            final(self).page_at(id) == page,
            count_live(final(self).pages@) == count_live(old(self).pages@) + 1,
            forall|other: u32|
                other != id ==> #[trigger] final(self).live(other) == old(self).live(other)
                    && (old(self).live(other) ==> final(self).page_at(other) == old(self).page_at(
                    other,
                )),
    {
        let idx: usize = id as usize;
        let ghost before = self.pages@;
        self.pages[idx] = Some(page);
        proof {
            lemma_count_live_update(before, idx as int, Some(page));
        }
    }

    /// Remove the page at slot `id`; reports whether a live page was removed.
    pub fn remove_page(&mut self, id: u32) -> (r: bool)
        ensures
            r == old(self).live(id),
            !final(self).live(id),
            old(self).live(id) ==> final(self).pages@ == old(self).pages@.update(
                id as int,
                None::<Page>,
            ) && count_live(final(self).pages@) == count_live(old(self).pages@) - 1,
            !old(self).live(id) ==> final(self).pages@ == old(self).pages@,
            forall|other: u32|
                other != id ==> #[trigger] final(self).live(other) == old(self).live(other)
                    && (old(self).live(other) ==> final(self).page_at(other) == old(self).page_at(
                    other,
                )),
    {
        let taken: Option<Page> = self.take_page(id);
        taken.is_some()
    }

    /// The number of live pages.
    pub fn page_count(&self) -> (r: usize)
        ensures
            r == count_live(self.pages@),
    {
        let n: usize = self.pages.len();
        let mut i: usize = 0;
        let mut count: usize = 0;
        while i < n
            invariant
                0 <= i <= n,
                n == self.pages@.len(),
                count == count_live(self.pages@.subrange(0, i as int)),
                count <= i,
            decreases n - i,
        {
            proof {
                assert(self.pages@.subrange(0, i as int + 1).drop_last() =~= self.pages@.subrange(
                    0,
                    i as int,
                ));
                assert(self.pages@.subrange(0, i as int + 1).last() == self.pages@[i as int]);
            }
            if self.pages[i].is_some() {
                count = count + 1;
            }
            i = i + 1;
        }
        proof {
            assert(self.pages@.subrange(0, n as int) =~= self.pages@);
        }
        count
    }

    /// A snapshot of the live page identifiers, in increasing order.
    pub fn active_page_ids(&self) -> (r: Vec<u32>)
        requires
            self.pages@.len() <= u32::MAX + 1,
        ensures
            forall|i: int| 0 <= i < r@.len() ==> self.live(#[trigger] r@[i]),
            forall|id: u32| self.live(id) ==> r@.contains(id),
            forall|i: int, j: int| 0 <= i < j < r@.len() ==> r@[i] < r@[j],
    {
        let n: usize = self.pages.len();
        let mut r: Vec<u32> = Vec::new();
        let mut i: usize = 0;
        while i < n
            invariant
                0 <= i <= n,
                n == self.pages@.len(),
                n <= u32::MAX + 1,
                forall|k: int| 0 <= k < r@.len() ==> self.live(#[trigger] r@[k]) && r@[k] < i,
                forall|id: u32| id < i && self.live(id) ==> r@.contains(id),
                forall|k: int, j: int| 0 <= k < j < r@.len() ==> r@[k] < r@[j],
            decreases n - i,
        {
            if self.pages[i].is_some() {
                let ghost r0 = r@;
                r.push(i as u32);
                proof {
                    assert forall|id: u32| id < i + 1 && self.live(id) implies r@.contains(
                        id,
                    ) by {
                        if id < i {
                            assert(r0.contains(id));
                            let k = choose|k: int| 0 <= k < r0.len() && r0[k] == id;
                            assert(r@[k] == id);
                        } else {
                            assert(r@[r@.len() - 1] == i as u32);
                        }
                    }
                }
            } else {
                proof {
                    assert forall|id: u32| id < i + 1 && self.live(id) implies r@.contains(
                        id,
                    ) by {
                        assert(id != i as u32);
                        assert(id < i);
                    }
                }
            }
            i = i + 1;
        }
        r
    }
}

/// Updating one slot changes the live count by the difference at that slot.
proof fn lemma_count_live_update(pages: Seq<Option<Page>>, i: int, v: Option<Page>)
    requires
        0 <= i < pages.len(),
    ensures
        count_live(pages.update(i, v)) == count_live(pages) + (if v is Some {
            1int
        } else {
            0int
        }) - (if pages[i] is Some {
            1int
        } else {
            0int
        }),
    decreases pages.len(),
{
    let updated = pages.update(i, v);
    if i == pages.len() - 1 {
        assert(updated.drop_last() =~= pages.drop_last());
    } else {
        assert(updated.drop_last() =~= pages.drop_last().update(i, v));
        lemma_count_live_update(pages.drop_last(), i, v);
    }
}

} // verus!
