//! The records of a run, and their columns as a columnar file takes them.

use crate::measure::BenchTiming;
use crate::plan::{is_supported_size, Case, SIZES};
use vstd::prelude::*;

verus! {

/// One measurement of one case.
#[derive(Debug)]
pub struct BenchResult {
    pub platform: String,
    pub allocator: String,
    pub pattern: String,
    pub size_bytes: u32,
    pub iteration: u32,
    /// The time that all batches took together, in nanoseconds.
    pub total_ns: u64,
    /// The time that the first batch took, in nanoseconds.
    pub latency_ns: u64,
}

impl BenchResult {
    /// Makes the record of the measurement number `iteration` of `case` on `platform`.
    /// The size is recorded in 32 bits, which hold every size that is measured.
    pub fn new(platform: &str, case: Case, iteration: u32, timing: BenchTiming) -> (record: Self)
        ensures
            record.platform@ == platform@,
            record.allocator@ == case.allocator.label(),
            record.pattern@ == case.pattern.label(),
            record.size_bytes == case.size as u32,
            is_supported_size(case.size) ==> record.size_bytes == case.size,
            record.iteration == iteration,
            record.total_ns == timing.total_ns,
            record.latency_ns == timing.latency_ns,
    {
        proof {
            if is_supported_size(case.size) {
                let k = choose|k: int| 0 <= k < SIZES@.len() && SIZES@[k] == case.size;
                assert(SIZES@[k] <= 4096);
            }
        }
        BenchResult {
            platform: platform.to_owned(),
            allocator: case.allocator.as_str().to_owned(),
            pattern: case.pattern.as_str().to_owned(),
            size_bytes: #[verifier::truncate]
            (case.size as u32),
            iteration,
            total_ns: timing.total_ns,
            latency_ns: timing.latency_ns,
        }
    }
}

/// The records of a run, column by column.
pub struct Columns<'a> {
    pub platforms: Vec<&'a str>,
    pub allocators: Vec<&'a str>,
    pub patterns: Vec<&'a str>,
    pub sizes: Vec<u32>,
    pub iterations: Vec<u32>,
    pub total: Vec<u64>,
    pub latency: Vec<u64>,
}

impl<'a> Columns<'a> {
    /// Whether the first `n` rows of the columns are the first `n` of `results`.
    pub open spec fn holds_rows(self, results: Seq<BenchResult>, n: int) -> bool {
        &&& self.platforms@.len() == n
        &&& self.allocators@.len() == n
        &&& self.patterns@.len() == n
        &&& self.sizes@.len() == n
        &&& self.iterations@.len() == n
        &&& self.total@.len() == n
        &&& self.latency@.len() == n
        &&& forall|i: int|
            #![trigger results[i]]
            0 <= i < n ==> {
                &&& self.platforms@[i]@ == results[i].platform@
                &&& self.allocators@[i]@ == results[i].allocator@
                &&& self.patterns@[i]@ == results[i].pattern@
                &&& self.sizes@[i] == results[i].size_bytes
                &&& self.iterations@[i] == results[i].iteration
                &&& self.total@[i] == results[i].total_ns
                &&& self.latency@[i] == results[i].latency_ns
            }
    }
}

/// Returns the columns of `results`: each holds one field of every record, in the
/// order of the records.
pub fn columns<'a>(results: &'a [BenchResult]) -> (columns: Columns<'a>)
    ensures
        columns.holds_rows(results@, results@.len() as int),
{
    let mut columns = Columns {
        platforms: Vec::new(),
        allocators: Vec::new(),
        patterns: Vec::new(),
        sizes: Vec::new(),
        iterations: Vec::new(),
        total: Vec::new(),
        latency: Vec::new(),
    };
    let mut i: usize = 0;
    while i < results.len()
        invariant
            i <= results@.len(),
            columns.holds_rows(results@, i as int),
        decreases results@.len() - i,
    {
        let record = &results[i];
        columns.platforms.push(record.platform.as_str());
        columns.allocators.push(record.allocator.as_str());
        columns.patterns.push(record.pattern.as_str());
        columns.sizes.push(record.size_bytes);
        columns.iterations.push(record.iteration);
        columns.total.push(record.total_ns);
        columns.latency.push(record.latency_ns);
        i += 1;
    }
    columns
}

} // verus!
