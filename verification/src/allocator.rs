//! The allocator capability: a fallible factory of fresh buffers.

use vstd::prelude::*;

verus! {

/// Produces one fresh buffer on demand, or fails with an error of its own.
///
/// An allocator sees nothing of the pool that calls it. What it may hand back is
/// described by [`BufferAllocator::yields`], which each implementation defines; the
/// pool passes that outcome on unchanged.
pub trait BufferAllocator {
    type Buffer;

    type Error;

    /// The outcomes that a call of `allocate` may have.
    open spec fn yields(&self, outcome: Result<Self::Buffer, Self::Error>) -> bool {
        true
    }

    /// Produces one fresh buffer, or fails.
    fn allocate(&self) -> (outcome: Result<Self::Buffer, Self::Error>)
        ensures
            self.yields(outcome),
    ;
}

} // verus!
