//! What a benchmark run consists of: the allocators, the access patterns and the
//! block sizes, and the order in which their combinations are measured.

use vstd::prelude::*;

verus! {

/// The number of measurements taken of each case.
pub const ITERATIONS: u32 = 100;

/// The number of blocks that one batch of a pattern works on.
pub const BATCH_SIZE: usize = 100;

/// The number of batches that one measurement runs.
pub const INNER_LOOP: usize = 1000;

/// The number of block sizes that are measured.
pub const SIZE_COUNT: usize = 19;

/// The block sizes that are measured, in bytes.
pub const SIZES: [usize; 19] = [
    8, 12, 16, 24, 32, 48, 64, 96, 128, 192, 256, 384, 512, 768, 1024, 1536, 2048, 3072, 4096,
];

/// The order in which blocks are acquired and released.
#[derive(Clone, Copy, Debug, PartialEq, Eq, Structural)]
pub enum Pattern {
    /// Each block is released right after it was acquired.
    Immediate,
    /// A batch of blocks is acquired, then released, the last one first.
    Lifo,
    /// A batch of blocks is acquired, then released, the first one first.
    Fifo,
    /// Blocks are acquired and released in an order drawn at random.
    Random,
}

impl Pattern {
    /// The label of the pattern in the records.
    pub open spec fn label(self) -> Seq<char> {
        match self {
            Pattern::Immediate => "immediate"@,
            Pattern::Lifo => "lifo"@,
            Pattern::Fifo => "fifo"@,
            Pattern::Random => "random"@,
        }
    }

    /// The patterns, in the order in which they are measured.
    pub open spec fn all_spec() -> Seq<Pattern> {
        seq![Pattern::Immediate, Pattern::Lifo, Pattern::Fifo, Pattern::Random]
    }

    /// Returns the label of the pattern in the records.
    pub fn as_str(&self) -> (s: &'static str)
        ensures
            s@ == self.label(),
    {
        match self {
            Pattern::Immediate => "immediate",
            Pattern::Lifo => "lifo",
            Pattern::Fifo => "fifo",
            Pattern::Random => "random",
        }
    }

    /// Returns the patterns, in the order in which they are measured.
    pub fn all() -> (patterns: &'static [Pattern])
        ensures
            patterns@ == Pattern::all_spec(),
    {
        &[Pattern::Immediate, Pattern::Lifo, Pattern::Fifo, Pattern::Random]
    }
}

/// The way in which the blocks of a benchmark are obtained.
#[derive(Clone, Copy, Debug, PartialEq, Eq, Structural)]
pub enum Allocator {
    /// Each block is allocated on the heap by itself.
    Box,
    /// The blocks live in a slab that starts without capacity.
    SlabCold,
    /// The blocks live in a slab that starts with the capacity that the batch needs.
    SlabWarm,
}

impl Allocator {
    /// The label of the allocator in the records.
    pub open spec fn label(self) -> Seq<char> {
        match self {
            Allocator::Box => "box"@,
            Allocator::SlabCold => "slab_cold"@,
            Allocator::SlabWarm => "slab_warm"@,
        }
    }

    /// The allocators, in the order in which they are measured.
    pub open spec fn all_spec() -> Seq<Allocator> {
        seq![Allocator::Box, Allocator::SlabCold, Allocator::SlabWarm]
    }

    /// Returns the label of the allocator in the records.
    pub fn as_str(&self) -> (s: &'static str)
        ensures
            s@ == self.label(),
    {
        match self {
            Allocator::Box => "box",
            Allocator::SlabCold => "slab_cold",
            Allocator::SlabWarm => "slab_warm",
        }
    }

    /// Returns the allocators, in the order in which they are measured.
    pub fn all() -> (allocators: &'static [Allocator])
        ensures
            allocators@ == Allocator::all_spec(),
    {
        &[Allocator::Box, Allocator::SlabCold, Allocator::SlabWarm]
    }
}

/// One combination that is measured.
#[derive(Clone, Copy, Debug, PartialEq, Eq, Structural)]
pub struct Case {
    pub allocator: Allocator,
    pub pattern: Pattern,
    pub size: usize,
}

/// Whether blocks of `size` bytes are measured.
pub open spec fn is_supported_size(size: usize) -> bool {
    exists|k: int| 0 <= k < SIZES@.len() && SIZES@[k] == size
}

/// The case at position `i` of a run: the sizes change fastest, then the patterns,
/// then the allocators.
pub open spec fn case_at(i: int) -> Case {
    Case {
        allocator: Allocator::all_spec()[i / 76],
        pattern: Pattern::all_spec()[(i / 19) % 4],
        size: SIZES@[i % 19],
    }
}

/// Returns whether blocks of `size` bytes are measured.
pub fn supported_size(size: usize) -> (supported: bool)
    ensures
        supported == is_supported_size(size),
{
    let mut k: usize = 0;
    while k < SIZE_COUNT
        invariant
            k <= SIZE_COUNT,
            forall|j: int| 0 <= j < k ==> SIZES@[j] != size,
        decreases SIZE_COUNT - k,
    {
        if SIZES[k] == size {
            return true;
        }
        k += 1;
    }
    false
}

/// Returns the cases of a run, in the order in which they are measured.
pub fn cases() -> (cases: Vec<Case>)
    ensures
        cases@.len() == 3 * 4 * 19,
        forall|i: int| 0 <= i < cases@.len() ==> cases@[i] == case_at(i),
        forall|i: int| 0 <= i < cases@.len() ==> is_supported_size(#[trigger] cases@[i].size),
{
    let allocators = Allocator::all();
    let patterns = Pattern::all();
    let mut cases: Vec<Case> = Vec::new();
    let mut a: usize = 0;
    while a < 3
        invariant
            a <= 3,
            allocators@ == Allocator::all_spec(),
            patterns@ == Pattern::all_spec(),
            cases@.len() == a * 4 * 19,
            forall|i: int| 0 <= i < cases@.len() ==> cases@[i] == case_at(i),
        decreases 3 - a,
    {
        let mut p: usize = 0;
        while p < 4
            invariant
                a < 3,
                p <= 4,
                allocators@ == Allocator::all_spec(),
                patterns@ == Pattern::all_spec(),
                cases@.len() == (a * 4 + p) * 19,
                forall|i: int| 0 <= i < cases@.len() ==> cases@[i] == case_at(i),
            decreases 4 - p,
        {
            let mut s: usize = 0;
            while s < SIZE_COUNT
                invariant
                    a < 3,
                    p < 4,
                    s <= SIZE_COUNT,
                    allocators@ == Allocator::all_spec(),
                    patterns@ == Pattern::all_spec(),
                    cases@.len() == (a * 4 + p) * 19 + s,
                    forall|i: int| 0 <= i < cases@.len() ==> cases@[i] == case_at(i),
                decreases SIZE_COUNT - s,
            {
                let case = Case { allocator: allocators[a], pattern: patterns[p], size: SIZES[s] };
                proof {
                    let i = (a * 4 + p) * 19 + s;
                    assert(i / 76 == a && (i / 19) % 4 == p && i % 19 == s) by (nonlinear_arith)
                        requires
                            i == (a * 4 + p) * 19 + s,
                            a < 3,
                            p < 4,
                            s < 19,
                    ;
                }
                cases.push(case);
                s += 1;
            }
            p += 1;
        }
        a += 1;
    }
    proof {
        assert forall|i: int| 0 <= i < cases@.len() implies is_supported_size(
            #[trigger] cases@[i].size,
        ) by {
            assert(cases@[i] == case_at(i));
            assert(0 <= i % 19 < 19);
        }
    }
    cases
}

} // verus!
