//! The pool whose leases own their buffer: a stack of idle buffers that a lease is
//! served from and, while the pool lives, handed back to.

use crate::allocator::BufferAllocator;
use vstd::prelude::*;

verus! {

/// The state of a pool whose leases own their buffer: the allocator and the idle
/// buffers, the one handed back last on top.
///
/// A lease of this pool is the buffer itself. Whoever shares the pool among several
/// owners keeps it alive as long as one of them lives, and hands a buffer back through
/// [`recycle`], which tells a pool that is still there from one that is gone.
pub struct StackPool<A: BufferAllocator> {
    allocator: A,
    idle: Vec<A::Buffer>,
}

impl<A: BufferAllocator> StackPool<A> {
    /// The idle buffers, the one that is reused next being the last.
    pub closed spec fn view(&self) -> Seq<A::Buffer> {
        self.idle@
    }

    /// The allocator that the pool was made with.
    pub closed spec fn allocator(&self) -> A {
        self.allocator
    }

    /// Makes a pool without idle buffers.
    pub fn new(allocator: A) -> (pool: Self)
        ensures
            pool@ == Seq::<A::Buffer>::empty(),
            pool.allocator() == allocator,
    {
        StackPool { allocator, idle: Vec::new() }
    }

    /// Returns the number of idle buffers.
    pub fn idle_len(&self) -> (n: usize)
        ensures
            n == self@.len(),
    {
        self.idle.len()
    }

    /// Hands out the idle buffer that came back last, or, where none is idle, what
    /// the allocator produces; its failure is passed on and leaves the pool as it was.
    pub fn lease(&mut self) -> (outcome: Result<A::Buffer, A::Error>)
        ensures
            final(self).allocator() == old(self).allocator(),
            old(self)@.len() > 0 ==> outcome == Ok::<A::Buffer, A::Error>(old(self)@.last())
                && final(self)@ == old(self)@.drop_last(),
            old(self)@.len() == 0 ==> old(self).allocator().yields(outcome) && final(self)@
                == old(self)@,
    {
        match self.idle.pop() {
            Some(buffer) => Ok(buffer),
            None => self.allocator.allocate(),
        }
    }

    /// Puts a buffer whose lease ended on top of the idle buffers.
    pub fn put_back(&mut self, buffer: A::Buffer)
        ensures
            final(self).allocator() == old(self).allocator(),
            final(self)@ == old(self)@.push(buffer),
    {
        self.idle.push(buffer);
    }
}

/// Ends a lease on `buffer`: a pool that is still alive takes the buffer back on top
/// of its idle ones; without a pool the buffer is dropped, which is no failure.
pub fn recycle<A: BufferAllocator>(pool: Option<&mut StackPool<A>>, buffer: A::Buffer) -> (kept:
    bool)
    ensures
        kept == pool.is_some(),
        match pool {
            Some(alive) => final(alive)@ == alive@.push(buffer) && final(alive).allocator()
                == alive.allocator(),
            None => true,
        },
{
    match pool {
        Some(alive) => {
            alive.put_back(buffer);
            true
        },
        None => false,
    }
}

/// The buffer that was handed back last is the one that the next lease hands out, and
/// that lease leaves the idle buffers as they were before.
pub proof fn lemma_lifo_reuse<B>(idle: Seq<B>, buffer: B)
    ensures
        idle.push(buffer).last() == buffer,
        idle.push(buffer).drop_last() == idle,
{
    assert(idle.push(buffer).drop_last() =~= idle);
}

/// One operation on a pool of this kind that went through.
pub enum StackOp<B> {
    /// A lease; `fresh` is the buffer that the allocator produces if it is called.
    Acquire { fresh: B },
    /// The end of a lease on `buffer`, with the pool alive.
    Release { buffer: B },
}

/// The idle buffers after `op`, where they were `idle` before.
pub open spec fn stack_step<B>(idle: Seq<B>, op: StackOp<B>) -> Seq<B> {
    match op {
        StackOp::Acquire { .. } => if idle.len() > 0 {
            idle.drop_last()
        } else {
            idle
        },
        StackOp::Release { buffer } => idle.push(buffer),
    }
}

/// The idle buffers that the operations `ops` lead to, from a pool without any.
pub open spec fn stack_run<B>(ops: Seq<StackOp<B>>) -> Seq<B>
    decreases ops.len(),
{
    if ops.len() == 0 {
        Seq::empty()
    } else {
        stack_step(stack_run(ops.drop_last()), ops.last())
    }
}

/// The number of calls of the allocator in the course of `ops`.
pub open spec fn stack_allocations<B>(ops: Seq<StackOp<B>>) -> int
    decreases ops.len(),
{
    if ops.len() == 0 {
        0
    } else if ops.last() is Acquire && stack_run(ops.drop_last()).len() == 0 {
        stack_allocations(ops.drop_last()) + 1
    } else {
        stack_allocations(ops.drop_last())
    }
}

/// The number of leases that are outstanding after `ops`.
pub open spec fn stack_outstanding<B>(ops: Seq<StackOp<B>>) -> int
    decreases ops.len(),
{
    if ops.len() == 0 {
        0
    } else if ops.last() is Acquire {
        stack_outstanding(ops.drop_last()) + 1
    } else {
        stack_outstanding(ops.drop_last()) - 1
    }
}

/// Whether `ops` releases no more leases than were acquired before.
pub open spec fn stack_valid<B>(ops: Seq<StackOp<B>>) -> bool
    decreases ops.len(),
{
    ops.len() == 0 || (stack_valid(ops.drop_last()) && (ops.last() is Release
        ==> stack_outstanding(ops.drop_last()) > 0))
}

/// The largest number of leases that were outstanding at one time in the course of
/// `ops`.
pub open spec fn stack_high_water<B>(ops: Seq<StackOp<B>>) -> int
    decreases ops.len(),
{
    if ops.len() == 0 {
        0
    } else if stack_outstanding(ops) > stack_high_water(ops.drop_last()) {
        stack_outstanding(ops)
    } else {
        stack_high_water(ops.drop_last())
    }
}

/// The allocator is called as often as the largest number of leases that were
/// outstanding at one time, however many leases were acquired: every buffer that it
/// produced is idle or on lease.
pub proof fn lemma_stack_allocation_minimality<B>(ops: Seq<StackOp<B>>)
    requires
        stack_valid(ops),
    ensures
        stack_allocations(ops) == stack_high_water(ops),
        stack_allocations(ops) == stack_run(ops).len() + stack_outstanding(ops),
        stack_outstanding(ops) >= 0,
    decreases ops.len(),
{
    if ops.len() > 0 {
        lemma_stack_allocation_minimality(ops.drop_last());
    }
}

} // verus!
