use std::cell::{Cell, RefCell};
use std::rc::{Rc, Weak};

use bufpool::allocator::BufferAllocator;
use bufpool::stack::{recycle, StackPool};

/// Hands out one-byte vectors that hold the number of the call, and fails from call
/// `limit` on.
struct Numbering {
    calls: Rc<Cell<u8>>,
    limit: u8,
}

impl BufferAllocator for Numbering {
    type Buffer = Vec<u8>;
    type Error = u8;

    fn allocate(&self) -> Result<Vec<u8>, u8> {
        let n = self.calls.get();
        self.calls.set(n + 1);
        if n >= self.limit {
            Err(n)
        } else {
            Ok(vec![n])
        }
    }
}

fn numbering(limit: u8) -> (Numbering, Rc<Cell<u8>>) {
    let calls = Rc::new(Cell::new(0));
    (Numbering { calls: calls.clone(), limit }, calls)
}

#[test]
fn orphaned_lease_is_dropped_without_failure() {
    let (allocator, calls) = numbering(3);
    let pool = Rc::new(RefCell::new(StackPool::new(allocator)));
    let second_handle = pool.clone();
    let observer: Weak<RefCell<StackPool<Numbering>>> = Rc::downgrade(&pool);

    let buffer = pool.borrow_mut().lease().unwrap();
    drop(pool);
    drop(second_handle);

    let kept = match observer.upgrade() {
        Some(alive) => recycle(Some(&mut *alive.borrow_mut()), buffer),
        None => recycle::<Numbering>(None, buffer),
    };
    assert!(!kept);
    assert_eq!(calls.get(), 1);
}

#[test]
fn lease_of_a_live_pool_is_recycled() {
    let (allocator, calls) = numbering(3);
    let pool = Rc::new(RefCell::new(StackPool::new(allocator)));
    let observer = Rc::downgrade(&pool);

    let buffer = pool.borrow_mut().lease().unwrap();
    assert_eq!(pool.borrow().idle_len(), 0);
    let kept = match observer.upgrade() {
        Some(alive) => recycle(Some(&mut *alive.borrow_mut()), buffer),
        None => recycle::<Numbering>(None, buffer),
    };
    assert!(kept);
    assert_eq!(pool.borrow().idle_len(), 1);
    assert_eq!(pool.borrow_mut().lease().unwrap(), vec![0]);
    assert_eq!(calls.get(), 1);
}

#[test]
fn stack_pool_reuses_the_buffer_handed_back_last() {
    let (allocator, calls) = numbering(10);
    let mut pool = StackPool::new(allocator);
    let a = pool.lease().unwrap();
    let b = pool.lease().unwrap();
    let c = pool.lease().unwrap();
    assert_eq!((a.clone(), b.clone(), c.clone()), (vec![0], vec![1], vec![2]));
    assert!(recycle(Some(&mut pool), b));
    assert!(recycle(Some(&mut pool), a));
    assert!(recycle(Some(&mut pool), c));
    assert_eq!(pool.idle_len(), 3);
    assert_eq!(pool.lease().unwrap(), vec![2]);
    assert_eq!(pool.lease().unwrap(), vec![0]);
    assert_eq!(pool.lease().unwrap(), vec![1]);
    assert_eq!(pool.idle_len(), 0);
    assert_eq!(calls.get(), 3);
    assert_eq!(pool.lease().unwrap(), vec![3]);
}

#[test]
fn stack_pool_scenario_allocates_twice() {
    let (allocator, calls) = numbering(3);
    let mut pool = StackPool::new(allocator);
    let a = pool.lease().unwrap();
    let b = pool.lease().unwrap();
    let a_identity = a.clone();
    pool.put_back(a);
    let c = pool.lease().unwrap();
    assert_eq!(c, a_identity);
    pool.put_back(b);
    pool.put_back(c);
    assert_eq!(calls.get(), 2);
}

#[test]
fn stack_pool_passes_a_failure_on_and_stays_as_it_was() {
    let (allocator, calls) = numbering(1);
    let mut pool = StackPool::new(allocator);
    let a = pool.lease().unwrap();
    assert_eq!(pool.lease(), Err(1));
    assert_eq!(pool.lease(), Err(2));
    assert_eq!(pool.idle_len(), 0);
    pool.put_back(a);
    assert_eq!(pool.idle_len(), 1);
    assert_eq!(pool.lease(), Ok(vec![0]));
    assert_eq!(calls.get(), 3);
}

#[test]
fn stack_pool_keeps_what_was_written() {
    let (allocator, _calls) = numbering(3);
    let mut pool = StackPool::new(allocator);
    let mut a = pool.lease().unwrap();
    a.push(77);
    pool.put_back(a);
    assert_eq!(pool.lease().unwrap(), vec![0, 77]);
}
