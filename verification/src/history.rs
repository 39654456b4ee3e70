//! Histories of a pool: what any sequence of leases and releases leads to.

use crate::model::PoolView;
use vstd::prelude::*;

verus! {

/// One operation on a pool that went through.
pub enum Op<B> {
    /// A lease; `fresh` is the buffer that the allocator produces if it is called.
    Acquire { fresh: B },
    /// The end of the lease on `slot`.
    Release { slot: int },
}

/// Whether `op` can be applied to the pool `v`: only a slot that is on lease can be
/// released.
pub open spec fn admits<B>(v: PoolView<B>, op: Op<B>) -> bool {
    match op {
        Op::Acquire { .. } => true,
        Op::Release { slot } => v.leased.contains(slot),
    }
}

/// Whether the allocator is called when `op` is applied to the pool `v`.
pub open spec fn allocates<B>(v: PoolView<B>, op: Op<B>) -> bool {
    op is Acquire && v.free.len() == 0
}

/// The pool `v` after `op`.
pub open spec fn step<B>(v: PoolView<B>, op: Op<B>) -> PoolView<B> {
    match op {
        Op::Acquire { fresh } => if v.free.len() > 0 {
            v.reuse()
        } else {
            v.grow(fresh)
        },
        Op::Release { slot } => v.release(slot),
    }
}

/// The pool that the operations `ops` lead to, from a pool that holds no buffer.
pub open spec fn run<B>(ops: Seq<Op<B>>) -> PoolView<B>
    decreases ops.len(),
{
    if ops.len() == 0 {
        PoolView::empty()
    } else {
        step(run(ops.drop_last()), ops.last())
    }
}

/// Whether each operation of `ops` can be applied where it stands.
pub open spec fn valid<B>(ops: Seq<Op<B>>) -> bool
    decreases ops.len(),
{
    ops.len() == 0 || (valid(ops.drop_last()) && admits(run(ops.drop_last()), ops.last()))
}

/// The number of calls of the allocator in the course of `ops`.
pub open spec fn allocations<B>(ops: Seq<Op<B>>) -> nat
    decreases ops.len(),
{
    if ops.len() == 0 {
        0
    } else if allocates(run(ops.drop_last()), ops.last()) {
        allocations(ops.drop_last()) + 1
    } else {
        allocations(ops.drop_last())
    }
}

/// The number of leases that are outstanding after `ops`: those acquired less those
/// released.
pub open spec fn outstanding<B>(ops: Seq<Op<B>>) -> int
    decreases ops.len(),
{
    if ops.len() == 0 {
        0
    } else {
        match ops.last() {
            Op::Acquire { .. } => outstanding(ops.drop_last()) + 1,
            Op::Release { .. } => outstanding(ops.drop_last()) - 1,
        }
    }
}

/// The largest number of leases that were outstanding at one time in the course of
/// `ops`.
pub open spec fn high_water<B>(ops: Seq<Op<B>>) -> int
    decreases ops.len(),
{
    if ops.len() == 0 {
        0
    } else if outstanding(ops) > high_water(ops.drop_last()) {
        outstanding(ops)
    } else {
        high_water(ops.drop_last())
    }
}

/// No operation takes a slot away or puts another buffer in one: the slab only grows.
pub proof fn lemma_step_keeps_slots<B>(v: PoolView<B>, op: Op<B>)
    ensures
        v.buffers.is_prefix_of(step(v, op).buffers),
{
}

/// Whatever the operations, the pool stays well formed: the idle slots are listed
/// once each and lie in the slab, and the slots on lease are the others.
pub proof fn lemma_run_well_formed<B>(ops: Seq<Op<B>>)
    requires
        valid(ops),
    ensures
        run(ops).well_formed(),
    decreases ops.len(),
{
    if ops.len() > 0 {
        let before = run(ops.drop_last());
        lemma_run_well_formed(ops.drop_last());
        match ops.last() {
            Op::Acquire { fresh } => {
                if before.free.len() > 0 {
                    before.lemma_reuse_well_formed();
                } else {
                    before.lemma_grow_well_formed(fresh);
                }
            },
            Op::Release { slot } => {
                before.lemma_release_well_formed(slot);
            },
        }
    }
}

/// The leases that are outstanding after `ops` are those of the slots that the pool
/// holds on lease, one each.
pub proof fn lemma_outstanding<B>(ops: Seq<Op<B>>)
    requires
        valid(ops),
    ensures
        run(ops).leased.finite(),
        outstanding(ops) == run(ops).leased.len(),
        outstanding(ops) == run(ops).buffers.len() - run(ops).free.len(),
    decreases ops.len(),
{
    lemma_run_well_formed(ops);
    lemma_slots_counted(run(ops));
    if ops.len() > 0 {
        lemma_run_well_formed(ops.drop_last());
        lemma_slots_counted(run(ops.drop_last()));
        lemma_outstanding(ops.drop_last());
    }
}

/// In a well-formed pool each slot is counted once: as idle or as on lease.
pub proof fn lemma_slots_counted<B>(v: PoolView<B>)
    requires
        v.well_formed(),
    ensures
        v.leased.finite(),
        v.free.len() + v.leased.len() == v.buffers.len(),
{
    let slots = vstd::set_lib::set_int_range(0, v.buffers.len() as int);
    let idle = v.free.to_set();
    vstd::set_lib::lemma_int_range(0, v.buffers.len() as int);
    v.free.unique_seq_to_set();
    assert forall|i: int| idle.contains(i) implies slots.contains(i) by {
        let k = choose|k: int| 0 <= k < v.free.len() && v.free[k] == i;
        assert(0 <= v.free[k] < v.buffers.len());
    }
    assert forall|i: int| v.leased.contains(i) implies slots.contains(i) by {}
    vstd::set_lib::lemma_len_subset(idle, slots);
    vstd::set_lib::lemma_len_subset(v.leased, slots);
    assert(idle + v.leased =~= slots);
    assert(idle.disjoint(v.leased));
    vstd::set_lib::lemma_set_disjoint_lens(idle, v.leased);
}

/// The allocator is called as often as the largest number of leases that were
/// outstanding at one time, however many leases were acquired; and each call gave the
/// slab one slot.
pub proof fn lemma_allocation_minimality<B>(ops: Seq<Op<B>>)
    requires
        valid(ops),
    ensures
        allocations(ops) == high_water(ops),
        run(ops).buffers.len() == allocations(ops),
    decreases ops.len(),
{
    if ops.len() > 0 {
        lemma_allocation_minimality(ops.drop_last());
        lemma_outstanding(ops.drop_last());
        lemma_outstanding(ops);
    }
}

} // verus!
