//! The recycling free list.
//!
//! Identifiers of removed pages are kept in strictly decreasing order, so the
//! smallest recycled identifier is always at the tail. Popping the minimum
//! biases new allocations toward the low end of the identifier space and
//! keeps the active set compact under steady-state churn; the strict order
//! also means no identifier can appear twice.

use vstd::prelude::*;

verus! {

/// A min-ordered list of recycled page identifiers.
pub struct FreeList {
    /// The identifiers, in strictly decreasing order; the last is the smallest.
    pub ids: Vec<u32>,
}

impl FreeList {
    /// Well-formedness: strictly decreasing, hence duplicate-free.
    pub open spec fn wf(self) -> bool {
        forall|i: int, j: int| 0 <= i < j < self.ids@.len() ==> self.ids@[i] > self.ids@[j]
    }

    /// Whether `id` is on the free list.
    pub open spec fn spec_contains(self, id: u32) -> bool {
        self.ids@.contains(id)
    }

    /// Create an empty free list.
    pub fn new() -> (r: Self)
        ensures
            r.ids@.len() == 0,
            r.wf(),
    {
        FreeList { ids: Vec::new() }
    }

    /// The number of identifiers on the list.
    pub fn len(&self) -> (r: usize)
        ensures
            r == self.ids@.len(),
    {
        self.ids.len()
    }

    /// Remove and return the smallest identifier, if any.
    pub fn pop_min(&mut self) -> (r: Option<u32>)
        requires
            old(self).wf(),
        ensures
            final(self).wf(),
            old(self).ids@.len() == 0 ==> r is None && final(self).ids@ == old(self).ids@,
            old(self).ids@.len() > 0 ==> {
                &&& r == Some(old(self).ids@.last())
                &&& final(self).ids@ == old(self).ids@.drop_last()
                &&& old(self).spec_contains(old(self).ids@.last())
                &&& forall|id: u32|
                    old(self).spec_contains(id) ==> old(self).ids@.last() <= id
                &&& forall|id: u32|
                    #[trigger] final(self).spec_contains(id) <==> old(self).spec_contains(id) && id
                        != old(self).ids@.last()
            },
    {
        proof {
            if self.ids@.len() > 0 {
                let last = self.ids@.last();
                assert(self.ids@.contains(last));
                assert forall|id: u32| self.spec_contains(id) implies last <= id by {
                    let k = choose|k: int| 0 <= k < self.ids@.len() && self.ids@[k] == id;
                    if k < self.ids@.len() - 1 {
                        assert(self.ids@[k] > self.ids@[self.ids@.len() - 1]);
                    }
                }
                assert forall|id: u32|
                    self.ids@.drop_last().contains(id) <==> self.spec_contains(id) && id
                        != last by {
                    if self.ids@.drop_last().contains(id) {
                        let k = choose|k: int|
                            0 <= k < self.ids@.drop_last().len() && self.ids@.drop_last()[k] == id;
                        assert(self.ids@[k] == id);
                        assert(self.ids@[k] > last);
                    }
                    if self.spec_contains(id) && id != last {
                        let k = choose|k: int| 0 <= k < self.ids@.len() && self.ids@[k] == id;
                        assert(k != self.ids@.len() - 1);
                        assert(self.ids@.drop_last()[k] == id);
                        assert(self.ids@.drop_last().contains(id));
                    }
                }
            }
        }
        self.ids.pop()
    }

    /// Insert an identifier not already on the list, keeping the order.
    pub fn push(&mut self, id: u32)
        requires
            old(self).wf(),
            !old(self).spec_contains(id),
        ensures
            final(self).wf(),
            final(self).ids@.len() == old(self).ids@.len() + 1,
            forall|x: u32|
                #[trigger] final(self).spec_contains(x) <==> old(self).spec_contains(x) || x == id,
    {
        let n: usize = self.ids.len();
        let mut i: usize = 0;
        while i < n && self.ids[i] > id
            invariant
                0 <= i <= n,
                n == self.ids@.len(),
                forall|k: int| 0 <= k < i ==> self.ids@[k] > id,
                self.wf(),
                self.ids@ == old(self).ids@,
            decreases n - i,
        {
            i = i + 1;
        }
        proof {
            if i < n {
                assert(self.ids@[i as int] != id) by {
                    if self.ids@[i as int] == id {
                        assert(self.ids@.contains(id));
                    }
                }
                assert(self.ids@[i as int] < id);
            }
        }
        let ghost before = self.ids@;
        self.ids.insert(i, id);
        proof {
            assert(self.ids@ == before.insert(i as int, id));
            assert forall|a: int, b: int|
                0 <= a < b < self.ids@.len() implies self.ids@[a] > self.ids@[b] by {
                if b < i {
                    assert(self.ids@[a] == before[a] && self.ids@[b] == before[b]);
                } else if a > i {
                    assert(self.ids@[a] == before[a - 1] && self.ids@[b] == before[b - 1]);
                } else if a < i && b == i {
                    assert(self.ids@[a] == before[a] && self.ids@[b] == id);
                } else if a == i && b > i {
                    assert(self.ids@[a] == id && self.ids@[b] == before[b - 1]);
                    assert(before[b - 1] < id);
                } else if a < i && b > i {
                    assert(self.ids@[a] == before[a] && self.ids@[b] == before[b - 1]);
                }
            }
            assert forall|x: u32|
                self.spec_contains(x) <==> before.contains(x) || x == id by {
                if self.spec_contains(x) {
                    let k = choose|k: int| 0 <= k < self.ids@.len() && self.ids@[k] == x;
                    if k < i {
                        assert(before[k] == x);
                        assert(before.contains(x));
                    } else if k > i {
                        assert(before[k - 1] == x);
                        assert(before.contains(x));
                    }
                }
                if before.contains(x) {
                    let k = choose|k: int| 0 <= k < before.len() && before[k] == x;
                    if k < i {
                        assert(self.ids@[k] == x);
                    } else {
                        assert(self.ids@[k + 1] == x);
                    }
                    assert(self.spec_contains(x));
                }
                if x == id {
                    assert(self.ids@[i as int] == x);
                    assert(self.spec_contains(x));
                }
            }
        }
    }
}

} // verus!
