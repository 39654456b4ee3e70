use bufpool::workload::{
    block, fifo_heap, fifo_in, immediate_cold, immediate_heap, immediate_in, lifo_heap, lifo_in,
    random_heap, random_in, toggle_heap, toggle_in,
};
use rand::rngs::StdRng;
use rand::SeedableRng;
use slab::Slab;

fn contents(slab: &Slab<Vec<u8>>) -> Vec<(usize, Vec<u8>)> {
    slab.iter().map(|(key, block)| (key, block.clone())).collect()
}

/// A slab that holds three blocks, under the keys 0, 2 and 3, with key 1 vacant.
fn used_slab() -> Slab<Vec<u8>> {
    let mut slab = Slab::new();
    slab.insert(vec![10]);
    let gap = slab.insert(vec![11]);
    slab.insert(vec![12, 12]);
    slab.insert(vec![]);
    slab.remove(gap);
    slab
}

#[test]
fn block_is_empty_with_room() {
    let b = block(64);
    assert_eq!(b.len(), 0);
    assert!(b.capacity() >= 64);
    assert_eq!(block(0).len(), 0);
}

#[test]
fn immediate_leaves_an_empty_slab_empty() {
    let mut slab = Slab::with_capacity(1);
    immediate_in(&mut slab, 100, 64);
    assert!(slab.is_empty());
    // One slot served every block.
    assert_eq!(slab.vacant_key(), 0);
    assert_eq!(slab.capacity(), 1);
}

#[test]
fn lifo_leaves_an_empty_slab_empty() {
    let mut slab = Slab::new();
    lifo_in(&mut slab, 100, 64);
    assert!(slab.is_empty());
    assert!(slab.capacity() >= 100);
}

#[test]
fn fifo_leaves_an_empty_slab_empty() {
    let mut slab = Slab::new();
    fifo_in(&mut slab, 100, 64);
    assert!(slab.is_empty());
    assert!(slab.capacity() >= 100);
}

#[test]
fn lifo_and_fifo_release_in_opposite_orders() {
    // The slab reuses the key released last: after a batch it is the key that the
    // pattern released last.
    let mut slab = Slab::new();
    lifo_in(&mut slab, 5, 8);
    assert_eq!(slab.vacant_key(), 0);
    let mut slab = Slab::new();
    fifo_in(&mut slab, 5, 8);
    assert_eq!(slab.vacant_key(), 4);
}

#[test]
fn random_leaves_an_empty_slab_empty() {
    let mut rng = StdRng::seed_from_u64(42);
    let mut slab = Slab::new();
    random_in(&mut slab, &mut rng, 100, 64);
    assert!(slab.is_empty());
    // Never more blocks at a time than places.
    assert!(slab.capacity() <= 256);
}

#[test]
fn random_with_one_place_alternates() {
    let mut rng = StdRng::seed_from_u64(7);
    let mut slab = Slab::new();
    random_in(&mut slab, &mut rng, 1, 16);
    assert!(slab.is_empty());
    assert_eq!(slab.vacant_key(), 0);
}

#[test]
fn random_draws_from_the_generator() {
    let mut used = StdRng::seed_from_u64(42);
    let untouched = StdRng::seed_from_u64(42);
    let mut slab = Slab::new();
    random_in(&mut slab, &mut used, 10, 16);
    assert_ne!(used, untouched);
}

#[test]
fn patterns_keep_what_the_slab_held() {
    let expected = contents(&used_slab());
    assert_eq!(expected, vec![(0, vec![10]), (2, vec![12, 12]), (3, vec![])]);

    let mut slab = used_slab();
    immediate_in(&mut slab, 10, 32);
    assert_eq!(contents(&slab), expected);

    let mut slab = used_slab();
    lifo_in(&mut slab, 10, 32);
    assert_eq!(contents(&slab), expected);

    let mut slab = used_slab();
    fifo_in(&mut slab, 10, 32);
    assert_eq!(contents(&slab), expected);

    let mut slab = used_slab();
    let mut rng = StdRng::seed_from_u64(1);
    random_in(&mut slab, &mut rng, 10, 32);
    assert_eq!(contents(&slab), expected);
}

#[test]
fn next_key_tells_the_order_of_release() {
    // In the used slab the next key is 1, then 4, 5, ...
    let mut slab = used_slab();
    assert_eq!(slab.vacant_key(), 1);
    immediate_in(&mut slab, 10, 8);
    assert_eq!(slab.vacant_key(), 1);

    let mut slab = used_slab();
    lifo_in(&mut slab, 10, 8);
    assert_eq!(slab.vacant_key(), 1);

    // Ten blocks take the keys 1, 4, 5, ..., 12; the last one goes back last.
    let mut slab = used_slab();
    fifo_in(&mut slab, 10, 8);
    assert_eq!(slab.vacant_key(), 12);

    let mut slab = used_slab();
    fifo_in(&mut slab, 1, 8);
    assert_eq!(slab.vacant_key(), 1);
}

/// The keys that the next `n` blocks get.
fn next_keys(slab: &mut Slab<Vec<u8>>, n: usize) -> Vec<usize> {
    (0..n).map(|_| slab.insert(Vec::new())).collect()
}

#[test]
fn a_batch_adds_the_slots_it_needs_and_no_more() {
    let mut slab = Slab::new();
    immediate_in(&mut slab, 5, 8);
    assert_eq!(next_keys(&mut slab, 3), vec![0, 1, 2]);

    let mut slab = Slab::new();
    lifo_in(&mut slab, 5, 8);
    assert_eq!(next_keys(&mut slab, 6), vec![0, 1, 2, 3, 4, 5]);

    let mut slab = Slab::new();
    fifo_in(&mut slab, 5, 8);
    assert_eq!(next_keys(&mut slab, 6), vec![4, 3, 2, 1, 0, 5]);

    // A second batch that the vacant slots can hold adds none.
    let mut slab = Slab::new();
    lifo_in(&mut slab, 5, 8);
    lifo_in(&mut slab, 3, 8);
    assert_eq!(next_keys(&mut slab, 6), vec![0, 1, 2, 3, 4, 5]);

    let mut slab = Slab::new();
    lifo_in(&mut slab, 5, 8);
    fifo_in(&mut slab, 3, 8);
    assert_eq!(next_keys(&mut slab, 6), vec![2, 1, 0, 3, 4, 5]);
}

#[test]
fn a_batch_in_a_used_slab_takes_the_vacant_slot_first() {
    // The used slab has four slots, of which 1 is vacant.
    let mut slab = used_slab();
    lifo_in(&mut slab, 3, 8);
    assert_eq!(next_keys(&mut slab, 4), vec![1, 4, 5, 6]);

    let mut slab = used_slab();
    fifo_in(&mut slab, 3, 8);
    assert_eq!(next_keys(&mut slab, 4), vec![5, 4, 1, 6]);

    let mut slab = used_slab();
    immediate_in(&mut slab, 3, 8);
    assert_eq!(next_keys(&mut slab, 2), vec![1, 4]);
}

#[test]
fn random_adds_only_slots_that_end_vacant() {
    let mut rng = StdRng::seed_from_u64(3);
    let mut slab = used_slab();
    random_in(&mut slab, &mut rng, 10, 8);
    assert_eq!(slab.len(), 3);
    // The slots in use are those of the blocks and the vacant ones: filling the
    // vacant ones takes keys below the number of slots, then new slots follow.
    let mut vacant = 0;
    loop {
        let slots = slab.len();
        if slab.vacant_key() == slots {
            break;
        }
        slab.insert(Vec::new());
        vacant += 1;
    }
    assert!(vacant >= 1);
    // One slot was vacant before; a batch of ten adds nine at most.
    assert!(vacant <= 10);
}

#[test]
fn toggle_in_acquires_then_releases() {
    let mut slab: Slab<Vec<u8>> = Slab::new();
    let mut places = vec![None, None, None];
    toggle_in(&mut slab, &mut places, 1, 16);
    assert_eq!(places, vec![None, Some(0), None]);
    assert!(slab.contains(0));
    assert_eq!(slab[0].len(), 0);
    assert!(slab[0].capacity() >= 16);
    toggle_in(&mut slab, &mut places, 2, 16);
    assert_eq!(places, vec![None, Some(0), Some(1)]);
    toggle_in(&mut slab, &mut places, 1, 16);
    assert_eq!(places, vec![None, None, Some(1)]);
    assert!(!slab.contains(0));
    assert!(slab.contains(1));
    // The key released last is taken first.
    toggle_in(&mut slab, &mut places, 0, 16);
    assert_eq!(places, vec![Some(0), None, Some(1)]);
    assert_eq!(slab.len(), 2);
}

#[test]
fn toggle_heap_allocates_then_frees() {
    let mut places: Vec<Option<Vec<u8>>> = vec![None, None];
    toggle_heap(&mut places, 1, 32);
    assert!(places[0].is_none());
    assert_eq!(places[1].as_ref().unwrap().len(), 0);
    assert!(places[1].as_ref().unwrap().capacity() >= 32);
    toggle_heap(&mut places, 0, 32);
    assert!(places[0].is_some());
    toggle_heap(&mut places, 1, 32);
    assert!(places[1].is_none());
    assert!(places[0].is_some());
}

#[test]
fn empty_batches_do_nothing() {
    let mut slab = used_slab();
    let expected = contents(&slab);
    immediate_in(&mut slab, 0, 8);
    lifo_in(&mut slab, 0, 8);
    fifo_in(&mut slab, 0, 8);
    assert_eq!(contents(&slab), expected);
    assert_eq!(slab.vacant_key(), 1);
    immediate_cold(0, 8);
    immediate_heap(0, 8);
    lifo_heap(0, 8);
    fifo_heap(0, 8);
}

#[test]
fn heap_patterns_run_to_the_end() {
    immediate_cold(100, 4096);
    immediate_heap(100, 4096);
    lifo_heap(100, 4096);
    fifo_heap(100, 4096);
    let mut rng = StdRng::seed_from_u64(42);
    let untouched = rng.clone();
    random_heap(&mut rng, 100, 4096);
    assert_ne!(rng, untouched);
}
