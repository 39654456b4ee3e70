//! The pool: a slab of buffers with a free list threaded through the idle entries.

use crate::allocator::BufferAllocator;
use crate::history::{step, Op};
use crate::model::{lemma_front_slot, PoolView};
use vstd::prelude::*;

verus! {

/// Ends the free list, and marks an entry that is on lease.
const FREE_LIST_END: usize = usize::MAX;

/// One slot of the slab: a buffer and the link to the next idle slot.
struct Entry<T> {
    buffer: T,
    next_free: usize,
}

/// A pool of the buffers that one allocator produced.
pub struct BufferPool<A: BufferAllocator> {
    allocator: A,
    entries: Vec<Entry<A::Buffer>>,
    free_head: usize,
    free: Ghost<Seq<int>>,
    leased: Ghost<Set<int>>,
}

/// Exclusive access to one slot of a pool, until it is handed back.
pub struct Lease {
    index: usize,
}

impl Lease {
    /// The slot that this lease governs.
    pub closed spec fn slot(&self) -> int {
        self.index as int
    }

    /// Returns the index of the slot that this lease governs.
    pub fn index(&self) -> (i: usize)
        ensures
            i == self.slot(),
    {
        self.index
    }
}

impl<A: BufferAllocator> BufferPool<A> {
    /// The pool as its callers see it.
    pub closed spec fn view(&self) -> PoolView<A::Buffer> {
        PoolView {
            buffers: Seq::new(self.entries@.len(), |i: int| self.entries@[i].buffer),
            free: self.free@,
            leased: self.leased@,
        }
    }

    /// The allocator that the pool was made with.
    pub closed spec fn allocator(&self) -> A {
        self.allocator
    }

    /// The link stored in each slot.
    pub closed spec fn links(&self) -> Seq<usize> {
        Seq::new(self.entries@.len(), |i: int| self.entries@[i].next_free)
    }

    /// The head of the free list.
    pub closed spec fn head(&self) -> usize {
        self.free_head
    }

    /// The links of the slab spell out the free list, and the slots on lease carry
    /// the end mark.
    pub closed spec fn wf(&self) -> bool {
        &&& self@.well_formed()
        &&& self.free_head == link_to(self.free@, 0)
        &&& forall|k: int|
            0 <= k < self.free@.len() ==> (#[trigger] self.entries@[self.free@[k]]).next_free
                == link_to(self.free@, k + 1)
        &&& forall|i: int|
            0 <= i < self.entries@.len() && !self.free@.contains(i) ==> (
            #[trigger] self.entries@[i]).next_free == FREE_LIST_END
    }

    /// The view shows the ghost lists and the buffers of the entries.
    proof fn lemma_view(&self)
        ensures
            self@.free == self.free@,
            self@.leased == self.leased@,
            self@.buffers.len() == self.entries@.len(),
            self.entries@.len() <= usize::MAX,
            forall|i: int|
                0 <= i < self.entries@.len() ==> #[trigger] self@.buffers[i]
                    == self.entries@[i].buffer,
    {
        assert(self.entries.len() == self.entries@.len());
    }

    /// From position `k` of the free list on, the links lead through the rest of it
    /// and then to the end mark.
    proof fn lemma_walk_from(&self, k: int, fuel: nat)
        requires
            self.wf(),
            0 <= k <= self.free@.len(),
            fuel >= self.free@.len() - k,
        ensures
            walk(self.links(), link_to(self.free@, k), fuel) == self.free@.subrange(
                k,
                self.free@.len() as int,
            ),
        decreases self.free@.len() - k,
    {
        self.lemma_view();
        let rest = self.free@.subrange(k, self.free@.len() as int);
        if k == self.free@.len() {
            assert(rest =~= Seq::<int>::empty());
        } else {
            let slot = self.free@[k];
            assert(0 <= slot < self.entries@.len());
            assert(self.links()[slot] == self.entries@[self.free@[k]].next_free);
            self.lemma_walk_from(k + 1, (fuel - 1) as nat);
            assert(rest =~= seq![slot] + self.free@.subrange(k + 1, self.free@.len() as int));
        }
    }

    /// Following the links of the slab from the head of the free list, to the end
    /// mark, meets exactly the idle slots, in their order: each once, each inside the
    /// slab, and none that is on lease; every other slot of the slab is on lease.
    pub proof fn lemma_free_list_integrity(&self, fuel: nat)
        requires
            self.wf(),
            fuel >= self@.free.len(),
        ensures
            self.links().len() == self@.buffers.len(),
            walk(self.links(), self.head(), fuel) == self@.free,
            self@.well_formed(),
            self@.free.to_set() =~= Set::new(
                |i: int| 0 <= i < self@.buffers.len() && !self@.leased.contains(i),
            ),
            forall|i: int| #[trigger] self@.leased.contains(i) ==> self.links()[i] == usize::MAX,
    {
        self.lemma_view();
        self.lemma_walk_from(0, fuel);
        assert(self.free@.subrange(0, self.free@.len() as int) =~= self.free@);
        assert forall|i: int| self.free@.to_set().contains(i) implies 0 <= i
            < self@.buffers.len() && !self@.leased.contains(i) by {
            let k = choose|k: int| 0 <= k < self.free@.len() && self.free@[k] == i;
            assert(0 <= self.free@[k] < self@.buffers.len());
        }
    }

    /// Makes a pool that holds no buffer yet.
    pub fn new(allocator: A) -> (pool: Self)
        ensures
            pool.wf(),
            pool@ == PoolView::<A::Buffer>::empty(),
            pool.allocator() == allocator,
    {
        let pool = BufferPool {
            allocator,
            entries: Vec::new(),
            free_head: FREE_LIST_END,
            free: Ghost(Seq::empty()),
            leased: Ghost(Set::empty()),
        };
        assert(pool@.buffers =~= Seq::<A::Buffer>::empty());
        pool
    }

    /// Returns the number of slots of the slab, idle or on lease.
    pub fn len(&self) -> (n: usize)
        ensures
            n == self@.buffers.len(),
    {
        proof {
            self.lemma_view();
        }
        self.entries.len()
    }

    /// Takes the slot at the head of the free list out of it and puts it on lease.
    fn reuse(&mut self) -> (lease: Lease)
        requires
            old(self).wf(),
            old(self)@.free.len() > 0,
        ensures
            final(self).wf(),
            final(self)@ == old(self)@.reuse(),
            final(self).allocator() == old(self).allocator(),
            lease.slot() == old(self)@.free[0],
    {
        proof {
            self.lemma_view();
            lemma_front_slot(self.free@);
            assert(0 <= self.free@[0] < self.entries.len());
        }
        let index = self.free_head;
        self.free_head = self.entries[index].next_free;
        self.entries[index].next_free = FREE_LIST_END;
        self.free = Ghost(self.free@.drop_first());
        self.leased = Ghost(self.leased@.insert(index as int));
        proof {
            old(self).lemma_view();
            self.lemma_view();
            assert(self@.buffers =~= old(self)@.buffers);
            old(self)@.lemma_reuse_well_formed();
            assert(forall|k: int|
                0 <= k < self.free@.len() ==> self.free@[k] == old(self).free@[k + 1]);
        }
        Lease { index }
    }

    /// Settles a lease that found no slot idle with what the allocator handed back: a
    /// fresh buffer gets a new slot at the end of the slab and goes on lease; a failure
    /// is passed on and changes nothing.
    pub fn settle(&mut self, fresh: Result<A::Buffer, A::Error>) -> (outcome: Result<
        Lease,
        A::Error,
    >)
        requires
            old(self).wf(),
            old(self)@.free.len() == 0,
        ensures
            final(self).wf(),
            final(self).allocator() == old(self).allocator(),
            match fresh {
                Ok(buffer) => {
                    &&& outcome matches Ok(lease)
                    &&& lease.slot() == old(self)@.buffers.len()
                    &&& final(self)@ == old(self)@.grow(buffer)
                },
                Err(error) => {
                    &&& outcome == Err::<Lease, A::Error>(error)
                    &&& *final(self) == *old(self)
                },
            },
    {
        match fresh {
            Ok(buffer) => {
                let index = self.entries.len();
                self.entries.push(Entry { buffer, next_free: FREE_LIST_END });
                self.leased = Ghost(self.leased@.insert(index as int));
                proof {
                    old(self).lemma_view();
                    self.lemma_view();
                    assert(self@.buffers =~= old(self)@.buffers.push(buffer));
                    old(self)@.lemma_grow_well_formed(buffer);
                }
                Ok(Lease { index })
            },
            Err(error) => Err(error),
        }
    }

    /// Grants exclusive access to one buffer: the idle one that was handed back last,
    /// or, where none is idle, a fresh one from the allocator, whose failure is passed
    /// on and leaves the pool as it was.
    pub fn lease(&mut self) -> (outcome: Result<Lease, A::Error>)
        requires
            old(self).wf(),
        ensures
            final(self).wf(),
            final(self).allocator() == old(self).allocator(),
            old(self)@.free.len() > 0 ==> {
                &&& outcome matches Ok(lease)
                &&& lease.slot() == old(self)@.free[0]
                &&& final(self)@ == old(self)@.reuse()
            },
            old(self)@.free.len() == 0 ==> match outcome {
                Ok(lease) => {
                    &&& lease.slot() == old(self)@.buffers.len()
                    &&& final(self)@ == old(self)@.grow(final(self)@.buffers.last())
                    &&& old(self).allocator().yields(Ok(final(self)@.buffers.last()))
                },
                Err(error) => {
                    &&& *final(self) == *old(self)
                    &&& old(self).allocator().yields(Err(error))
                },
            },
            outcome matches Ok(lease) ==> !old(self)@.leased.contains(lease.slot())
                && final(self)@.leased.contains(lease.slot()),
            outcome is Ok ==> final(self)@ == step(
                old(self)@,
                (Op::Acquire { fresh: final(self)@.buffers.last() }),
            ),
    {
        proof {
            self.lemma_view();
            if self.free@.len() > 0 {
                assert(0 <= self.free@[0] < self.entries.len());
                self@.lemma_reuse_well_formed();
            } else {
                assert(!self@.leased.contains(self@.buffers.len() as int));
            }
        }
        if self.free_head != FREE_LIST_END {
            Ok(self.reuse())
        } else {
            let fresh = self.allocator.allocate();
            self.settle(fresh)
        }
    }

    /// The buffer of the slot that `lease` governs.
    pub fn buffer(&self, lease: &Lease) -> (buffer: &A::Buffer)
        requires
            self.wf(),
            self@.leased.contains(lease.slot()),
        ensures
            *buffer == self@.buffers[lease.slot()],
    {
        &self.entries[lease.index].buffer
    }

    /// The buffer of the slot that `lease` governs, to be changed in place.
    pub fn buffer_mut(&mut self, lease: &Lease) -> (buffer: &mut A::Buffer)
        requires
            old(self).wf(),
            old(self)@.leased.contains(lease.slot()),
        ensures
            *buffer == old(self)@.buffers[lease.slot()],
            final(self).wf(),
            final(self).allocator() == old(self).allocator(),
            final(self)@.buffers =~= old(self)@.buffers.update(lease.slot(), *final(buffer)),
            final(self)@.free == old(self)@.free,
            final(self)@.leased == old(self)@.leased,
    {
        &mut self.entries[lease.index].buffer
    }

    /// Ends a lease: its slot becomes the head of the free list, and its buffer stays
    /// in the slab.
    pub fn release(&mut self, lease: Lease)
        requires
            old(self).wf(),
            old(self)@.leased.contains(lease.slot()),
        ensures
            final(self).wf(),
            final(self)@ == old(self)@.release(lease.slot()),
            final(self)@ == step(old(self)@, (Op::Release { slot: lease.slot() })),
            final(self).allocator() == old(self).allocator(),
    {
        let index = lease.index;
        self.entries[index].next_free = self.free_head;
        self.free_head = index;
        self.free = Ghost(seq![index as int] + self.free@);
        self.leased = Ghost(self.leased@.remove(index as int));
        proof {
            old(self).lemma_view();
            self.lemma_view();
            assert(self@.buffers =~= old(self)@.buffers);
            old(self)@.lemma_release_well_formed(index as int);
            assert(self.free@.drop_first() =~= old(self).free@);
            lemma_front_slot(self.free@);
            assert(forall|k: int|
                0 < k < self.free@.len() ==> self.free@[k] == old(self).free@[k - 1]);
        }
    }
}

/// The link that leads to position `k` of the free list `free`: the slot there, or
/// the end mark behind the last one.
pub open spec fn link_to(free: Seq<int>, k: int) -> usize {
    if 0 <= k < free.len() {
        free[k] as usize
    } else {
        usize::MAX
    }
}

/// The slots that are met by following `links` from `head` until the end mark, for
/// at most `fuel` steps.
pub open spec fn walk(links: Seq<usize>, head: usize, fuel: nat) -> Seq<int>
    decreases fuel,
{
    if fuel == 0 || head == usize::MAX {
        Seq::empty()
    } else {
        seq![head as int] + walk(links, links[head as int], (fuel - 1) as nat)
    }
}

} // verus!
