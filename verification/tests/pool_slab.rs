use std::cell::Cell;
use std::rc::Rc;

use bufpool::allocator::BufferAllocator;
use bufpool::buffer::Buffer;
use bufpool::pool::BufferPool;

/// Hands out vectors of `len` zero bytes, counts its calls, and fails once `limit`
/// buffers were produced.
struct Counting {
    calls: Rc<Cell<usize>>,
    made: Cell<usize>,
    limit: usize,
    len: usize,
}

fn counting(limit: usize, len: usize) -> (Counting, Rc<Cell<usize>>) {
    let calls = Rc::new(Cell::new(0));
    (Counting { calls: calls.clone(), made: Cell::new(0), limit, len }, calls)
}

impl BufferAllocator for Counting {
    type Buffer = Vec<u8>;
    type Error = String;

    fn allocate(&self) -> Result<Vec<u8>, String> {
        self.calls.set(self.calls.get() + 1);
        if self.made.get() >= self.limit {
            return Err(format!("no more than {} buffers", self.limit));
        }
        self.made.set(self.made.get() + 1);
        Ok(vec![0u8; self.len])
    }
}

#[test]
fn third_lease_takes_the_identity_of_the_first() {
    let (allocator, calls) = counting(3, 16);
    let mut pool = BufferPool::new(allocator);
    let a = pool.lease().unwrap();
    let a_index = a.index();
    let b = pool.lease().unwrap();
    assert_ne!(a_index, b.index());
    pool.release(a);
    let c = pool.lease().unwrap();
    assert_eq!(c.index(), a_index);
    pool.release(b);
    pool.release(c);
    assert_eq!(calls.get(), 2);
}

#[test]
fn new_pool_allocates_nothing() {
    let (allocator, calls) = counting(3, 16);
    let _pool = BufferPool::new(allocator);
    assert_eq!(calls.get(), 0);
}

#[test]
fn fresh_slots_are_numbered_in_order() {
    let (allocator, calls) = counting(8, 4);
    let mut pool = BufferPool::new(allocator);
    let leases: Vec<_> = (0..5).map(|_| pool.lease().unwrap()).collect();
    let indices: Vec<usize> = leases.iter().map(|l| l.index()).collect();
    assert_eq!(indices, vec![0, 1, 2, 3, 4]);
    assert_eq!(calls.get(), 5);
}

#[test]
fn released_slots_come_back_last_first() {
    let (allocator, calls) = counting(8, 4);
    let mut pool = BufferPool::new(allocator);
    let mut leases: Vec<_> = (0..4).map(|_| pool.lease().unwrap()).collect();
    // Release 1, then 3, then 0: the free list reads 0, 3, 1.
    let l3 = leases.pop().unwrap();
    let l2 = leases.pop().unwrap();
    let l1 = leases.pop().unwrap();
    let l0 = leases.pop().unwrap();
    pool.release(l1);
    pool.release(l3);
    pool.release(l0);
    assert_eq!(pool.lease().unwrap().index(), 0);
    assert_eq!(pool.lease().unwrap().index(), 3);
    assert_eq!(pool.lease().unwrap().index(), 1);
    // Nothing is idle now: the next lease gets a new slot.
    assert_eq!(pool.lease().unwrap().index(), 4);
    assert_eq!(calls.get(), 5);
    assert_eq!(l2.index(), 2);
}

#[test]
fn allocations_equal_the_high_water_mark() {
    let (allocator, calls) = counting(100, 4);
    let mut pool = BufferPool::new(allocator);
    let mut live = Vec::new();
    let mut high_water = 0;
    // Up to 3, down to 1, up to 5, down to 0, up to 4.
    let script: [i32; 5] = [3, -2, 4, -5, 4];
    let mut leases = 0;
    for step in script {
        for _ in 0..step.abs() {
            if step > 0 {
                live.push(pool.lease().unwrap());
                leases += 1;
                high_water = high_water.max(live.len());
            } else {
                let lease = live.pop().unwrap();
                pool.release(lease);
            }
        }
        assert_eq!(calls.get(), high_water);
    }
    assert_eq!(leases, 11);
    assert_eq!(calls.get(), 5);
}

#[test]
fn immediate_pairs_allocate_once() {
    let (allocator, calls) = counting(100, 4);
    let mut pool = BufferPool::new(allocator);
    for _ in 0..50 {
        let lease = pool.lease().unwrap();
        assert_eq!(lease.index(), 0);
        pool.release(lease);
    }
    assert_eq!(calls.get(), 1);
}

#[test]
fn live_leases_have_distinct_slots() {
    let (allocator, _calls) = counting(100, 4);
    let mut pool = BufferPool::new(allocator);
    let mut live = Vec::new();
    for round in 0..6 {
        for _ in 0..4 {
            live.push(pool.lease().unwrap());
        }
        // Release every other lease, starting at a place that moves.
        let mut kept = Vec::new();
        for (i, lease) in live.drain(..).enumerate() {
            if (i + round) % 2 == 0 {
                pool.release(lease);
            } else {
                kept.push(lease);
            }
        }
        live = kept;
        let mut seen: Vec<usize> = live.iter().map(|l| l.index()).collect();
        seen.sort();
        let before = seen.len();
        seen.dedup();
        assert_eq!(seen.len(), before);
    }
}

#[test]
fn failed_allocation_is_passed_on_and_changes_nothing() {
    let (allocator, calls) = counting(2, 4);
    let mut pool = BufferPool::new(allocator);
    let a = pool.lease().unwrap();
    let b = pool.lease().unwrap();
    let err = pool.lease().err().unwrap();
    assert_eq!(err, "no more than 2 buffers");
    assert_eq!(calls.get(), 3);
    // The pool still serves from its idle slots, last released first.
    pool.release(b);
    pool.release(a);
    assert_eq!(pool.lease().unwrap().index(), 0);
    assert_eq!(pool.lease().unwrap().index(), 1);
    assert_eq!(calls.get(), 3);
    // And fails again where none is idle.
    assert!(pool.lease().is_err());
    assert_eq!(calls.get(), 4);
}

#[test]
fn no_allocation_while_a_slot_is_idle() {
    let (allocator, calls) = counting(1, 4);
    let mut pool = BufferPool::new(allocator);
    let a = pool.lease().unwrap();
    pool.release(a);
    // The allocator would fail now, but it is not asked.
    let again = pool.lease().unwrap();
    assert_eq!(again.index(), 0);
    assert_eq!(calls.get(), 1);
}

#[test]
fn settle_gives_a_fresh_buffer_the_next_slot() {
    let (allocator, calls) = counting(0, 4);
    let mut pool = BufferPool::new(allocator);
    let first = pool.settle(Ok(vec![1, 2, 3])).unwrap();
    let second = pool.settle(Ok(vec![4])).unwrap();
    assert_eq!(first.index(), 0);
    assert_eq!(second.index(), 1);
    assert_eq!(pool.buffer(&first), &vec![1, 2, 3]);
    assert_eq!(pool.buffer(&second), &vec![4]);
    assert_eq!(calls.get(), 0);
}

#[test]
fn settle_passes_a_failure_on() {
    let (allocator, _calls) = counting(0, 4);
    let mut pool = BufferPool::new(allocator);
    let outcome = pool.settle(Err("out of memory".to_string()));
    assert_eq!(outcome.err().unwrap(), "out of memory");
    // No slot was added: the next fresh buffer gets slot 0.
    assert_eq!(pool.settle(Ok(vec![9])).unwrap().index(), 0);
}

#[test]
fn a_lease_reaches_its_own_buffer() {
    let (allocator, _calls) = counting(4, 8);
    let mut pool = BufferPool::new(allocator);
    let a = pool.lease().unwrap();
    let b = pool.lease().unwrap();
    assert_eq!(pool.buffer(&a).size(), 8);
    pool.buffer_mut(&a)[0] = 7;
    pool.buffer_mut(&b).push(9);
    assert_eq!(pool.buffer(&a)[0], 7);
    assert_eq!(pool.buffer(&a).size(), 8);
    assert_eq!(pool.buffer(&b).size(), 9);
    assert_eq!(pool.buffer(&b)[0], 0);
    assert_eq!(pool.buffer(&b)[8], 9);
}

#[test]
fn a_released_buffer_is_kept_as_it_is() {
    let (allocator, calls) = counting(4, 8);
    let mut pool = BufferPool::new(allocator);
    let a = pool.lease().unwrap();
    pool.buffer_mut(&a)[3] = 42;
    pool.release(a);
    let again = pool.lease().unwrap();
    assert_eq!(pool.buffer(&again)[3], 42);
    assert_eq!(pool.buffer(&again).size(), 8);
    assert_eq!(calls.get(), 1);
}

#[test]
fn reset_through_a_lease_clears_a_growable_buffer() {
    let (allocator, _calls) = counting(4, 8);
    let mut pool = BufferPool::new(allocator);
    let a = pool.lease().unwrap();
    let b = pool.lease().unwrap();
    pool.buffer_mut(&a).reset();
    assert_eq!(pool.buffer(&a).size(), 0);
    assert_eq!(pool.buffer(&b).size(), 8);
}
