//! The pool as a mathematical value, and the steps that a pool can take.

use vstd::prelude::*;

verus! {

/// What a pool is, seen from outside.
pub struct PoolView<B> {
    /// The buffer of each slot, by index. Slots are only ever added.
    pub buffers: Seq<B>,
    /// The indices of the idle slots, in the order in which they will be reused.
    pub free: Seq<int>,
    /// The indices for which a lease is outstanding.
    pub leased: Set<int>,
}

impl<B> PoolView<B> {
    /// The pool that holds no buffer.
    pub open spec fn empty() -> Self {
        PoolView { buffers: Seq::empty(), free: Seq::empty(), leased: Set::empty() }
    }

    /// Every idle slot is listed once and lies in the slab, and the slots on lease
    /// are exactly the slots of the slab that are not idle.
    pub open spec fn well_formed(self) -> bool {
        &&& self.free.no_duplicates()
        &&& forall|k: int|
            #![trigger self.free[k]]
            0 <= k < self.free.len() ==> 0 <= self.free[k] < self.buffers.len()
        &&& forall|i: int|
            #![trigger self.leased.contains(i)]
            self.leased.contains(i) <==> 0 <= i < self.buffers.len() && !self.free.contains(i)
    }

    /// The pool after the idle slot at the head of the free list went on lease.
    pub open spec fn reuse(self) -> Self
        recommends
            self.free.len() > 0,
    {
        PoolView {
            buffers: self.buffers,
            free: self.free.drop_first(),
            leased: self.leased.insert(self.free[0]),
        }
    }

    /// The pool after a slot was added for the fresh buffer `b` and went on lease.
    pub open spec fn grow(self, b: B) -> Self {
        PoolView {
            buffers: self.buffers.push(b),
            free: self.free,
            leased: self.leased.insert(self.buffers.len() as int),
        }
    }

    /// The pool after the lease on slot `i` ended.
    pub open spec fn release(self, i: int) -> Self {
        PoolView {
            buffers: self.buffers,
            free: seq![i] + self.free,
            leased: self.leased.remove(i),
        }
    }

    /// Reusing the head of the free list keeps the pool well formed, and the slot that
    /// goes on lease was not on lease before.
    pub proof fn lemma_reuse_well_formed(self)
        requires
            self.well_formed(),
            self.free.len() > 0,
        ensures
            self.reuse().well_formed(),
            !self.leased.contains(self.free[0]),
            self.reuse().leased.contains(self.free[0]),
    {
        lemma_front_slot(self.free);
        assert(self.free.contains(self.free[0]));
        let next = self.reuse();
        assert forall|k: int| 0 <= k < next.free.len() implies 0 <= #[trigger] next.free[k]
            < next.buffers.len() by {
            assert(next.free[k] == self.free[k + 1]);
        }
    }

    /// Adding a slot for a fresh buffer keeps the pool well formed, and the new slot
    /// was not on lease before.
    pub proof fn lemma_grow_well_formed(self, b: B)
        requires
            self.well_formed(),
        ensures
            self.grow(b).well_formed(),
            !self.leased.contains(self.buffers.len() as int),
            self.grow(b).leased.contains(self.buffers.len() as int),
    {
        let slot = self.buffers.len() as int;
        if self.free.contains(slot) {
            let k = choose|k: int| 0 <= k < self.free.len() && self.free[k] == slot;
            assert(self.free[k] < self.buffers.len());
        }
    }

    /// Ending a lease keeps the pool well formed.
    pub proof fn lemma_release_well_formed(self, i: int)
        requires
            self.well_formed(),
            self.leased.contains(i),
        ensures
            self.release(i).well_formed(),
    {
        let next = self.release(i);
        assert(next.free.drop_first() =~= self.free);
        lemma_front_slot(next.free);
        assert forall|k: int| 0 <= k < next.free.len() implies 0 <= #[trigger] next.free[k]
            < next.buffers.len() by {
            if k > 0 {
                assert(next.free[k] == self.free[k - 1]);
            }
        }
    }

    /// The slot that was released last is the one that the next lease reuses, and that
    /// lease brings the pool back to where it was before the release.
    pub proof fn lemma_release_then_reuse(self, i: int)
        requires
            self.well_formed(),
            self.leased.contains(i),
        ensures
            self.release(i).free.len() > 0,
            self.release(i).free[0] == i,
            self.release(i).reuse() == self,
    {
        let back = self.release(i).reuse();
        assert(back.free =~= self.free);
        assert(back.leased =~= self.leased);
    }
}

/// In a free list, the first slot is no other position's, and what follows it holds
/// the same slots but that one.
pub(crate) proof fn lemma_front_slot(free: Seq<int>)
    requires
        free.len() > 0,
    ensures
        free == seq![free[0]] + free.drop_first(),
        forall|i: int|
            #![trigger free.contains(i)]
            #![trigger free.drop_first().contains(i)]
            free.contains(i) <==> i == free[0] || free.drop_first().contains(i),
        free.no_duplicates() <==> free.drop_first().no_duplicates() && !free.drop_first().contains(
            free[0],
        ),
{
    let rest = free.drop_first();
    assert(free =~= seq![free[0]] + rest);
    assert forall|i: int| free.contains(i) implies i == free[0] || rest.contains(i) by {
        let k = choose|k: int| 0 <= k < free.len() && free[k] == i;
        if k > 0 {
            assert(rest[k - 1] == i);
        }
    }
    assert forall|i: int| i == free[0] || rest.contains(i) implies free.contains(i) by {
        if i != free[0] {
            let k = choose|k: int| 0 <= k < rest.len() && rest[k] == i;
            assert(free[k + 1] == i);
        }
    }
    if free.no_duplicates() {
        assert(rest.no_duplicates()) by {
            assert forall|a: int, b: int|
                0 <= a < rest.len() && 0 <= b < rest.len() && a != b implies rest[a]
                != rest[b] by {
                assert(free[a + 1] != free[b + 1]);
            }
        }
        if rest.contains(free[0]) {
            let k = choose|k: int| 0 <= k < rest.len() && rest[k] == free[0];
            assert(free[k + 1] == free[0]);
        }
    }
    if rest.no_duplicates() && !rest.contains(free[0]) {
        assert forall|a: int, b: int|
            0 <= a < free.len() && 0 <= b < free.len() && a != b implies free[a] != free[b] by {
            if a > 0 {
                assert(rest[a - 1] == free[a]);
            }
            if b > 0 {
                assert(rest[b - 1] == free[b]);
            }
        }
    }
}

} // verus!
