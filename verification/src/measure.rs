//! One measurement: a case is run batch by batch between readings of the clock.

use crate::plan::{is_supported_size, Allocator, Pattern, BATCH_SIZE, INNER_LOOP};
use crate::store::{slab_new, slab_with_capacity};
use crate::workload::{
    block, fifo_heap, fifo_in, immediate_cold, immediate_heap, immediate_in, lifo_heap, lifo_in,
    random_heap, random_in,
};
use quanta::Clock;
use rand::rngs::StdRng;
use vstd::prelude::*;

verus! {

/// `quanta::Clock`, of which nothing is seen here but through the two functions below.
#[verifier::external_type_specification]
#[verifier::external_body]
pub struct ExClock(Clock);

/// `Clock::raw`: a reading of the clock, in units of its own.
#[verifier::external_body]
pub(crate) fn clock_raw(clock: &Clock) -> (reading: u64) {
    clock.raw()
}

/// `Clock::delta`, in nanoseconds: the time between two readings of `clock`, which is
/// none where the second reading is not above the first.
#[verifier::external_body]
pub(crate) fn clock_delta_ns(clock: &Clock, start: u64, end: u64) -> (ns: u64)
    ensures
        end <= start ==> ns == 0,
{
    clock.delta(start, end).as_nanos() as u64
}

/// The times of one measurement, in nanoseconds.
#[derive(Clone, Copy, Debug, PartialEq, Eq, Structural)]
pub struct BenchTiming {
    /// The time that all batches took together.
    pub total_ns: u64,
    /// The time that the first batch took.
    pub latency_ns: u64,
}

impl BenchTiming {
    /// Puts the time of the first batch and that of all later ones together; there is
    /// no timing where their sum is beyond the numbers of 64 bits.
    pub fn from_parts(latency_ns: u64, rest_ns: u64) -> (timing: Option<BenchTiming>)
        ensures
            latency_ns + rest_ns <= u64::MAX ==> timing == Some(
                (BenchTiming { total_ns: (latency_ns + rest_ns) as u64, latency_ns }),
            ),
            latency_ns + rest_ns > u64::MAX ==> timing.is_none(),
    {
        match latency_ns.checked_add(rest_ns) {
            Some(total_ns) => Some(BenchTiming { total_ns, latency_ns }),
            None => None,
        }
    }
}

/// Runs one batch of `pattern` on blocks of `size` bytes that `allocator` provides.
/// A slab is made for the batch and dropped with it; a warm one starts with room for
/// the blocks that the pattern holds at one time. Only the random pattern draws from
/// `rng`.
pub fn run_batch(allocator: Allocator, pattern: Pattern, size: usize, rng: &mut StdRng)
    ensures
        pattern != Pattern::Random ==> *final(rng) == *old(rng),
{
    match pattern {
        Pattern::Immediate => match allocator {
            Allocator::Box => immediate_heap(BATCH_SIZE, size),
            Allocator::SlabCold => immediate_cold(BATCH_SIZE, size),
            Allocator::SlabWarm => {
                let mut slab = slab_with_capacity(1);
                immediate_in(&mut slab, BATCH_SIZE, size);
            },
        },
        Pattern::Lifo => match allocator {
            Allocator::Box => lifo_heap(BATCH_SIZE, size),
            Allocator::SlabCold => {
                let mut slab = slab_new();
                lifo_in(&mut slab, BATCH_SIZE, size);
            },
            Allocator::SlabWarm => {
                let mut slab = slab_with_capacity(BATCH_SIZE);
                lifo_in(&mut slab, BATCH_SIZE, size);
            },
        },
        Pattern::Fifo => match allocator {
            Allocator::Box => fifo_heap(BATCH_SIZE, size),
            Allocator::SlabCold => {
                let mut slab = slab_new();
                fifo_in(&mut slab, BATCH_SIZE, size);
            },
            Allocator::SlabWarm => {
                let mut slab = slab_with_capacity(BATCH_SIZE);
                fifo_in(&mut slab, BATCH_SIZE, size);
            },
        },
        Pattern::Random => match allocator {
            Allocator::Box => random_heap(rng, BATCH_SIZE, size),
            Allocator::SlabCold => {
                let mut slab = slab_new();
                random_in(&mut slab, rng, BATCH_SIZE, size);
            },
            Allocator::SlabWarm => {
                let mut slab = slab_with_capacity(BATCH_SIZE);
                random_in(&mut slab, rng, BATCH_SIZE, size);
            },
        },
    }
}

/// Measures one case: the time of the first batch, and that of all batches of the
/// measurement together. There is no timing where the clock's readings give a total
/// beyond the numbers of 64 bits.
pub fn run_benchmark(
    clock: &Clock,
    allocator: Allocator,
    pattern: Pattern,
    size: usize,
    rng: &mut StdRng,
) -> (timing: Option<BenchTiming>)
    requires
        is_supported_size(size),
    ensures
        timing matches Some(t) ==> t.latency_ns <= t.total_ns,
{
    let lat_start = clock_raw(clock);
    run_batch(allocator, pattern, size, rng);
    let lat_end = clock_raw(clock);
    let latency_ns = clock_delta_ns(clock, lat_start, lat_end);

    let start = clock_raw(clock);
    let mut batch: usize = 1;
    while batch < INNER_LOOP
        invariant
            1 <= batch <= INNER_LOOP,
        decreases INNER_LOOP - batch,
    {
        run_batch(allocator, pattern, size, rng);
        batch += 1;
    }
    let end = clock_raw(clock);
    let rest_ns = clock_delta_ns(clock, start, end);

    BenchTiming::from_parts(latency_ns, rest_ns)
}

/// Brings the processor and the clock up to speed before the first measurement.
pub fn warmup(clock: &Clock) {
    let mut i: usize = 0;
    while i < 10000
        invariant
            i <= 10000,
        decreases 10000 - i,
    {
        let _ = std::hint::black_box(clock_raw(clock));
        let _ = std::hint::black_box(block(64));
        i += 1;
    }
}

} // verus!
