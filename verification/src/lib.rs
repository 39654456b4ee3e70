//! A single-threaded pool of reusable byte buffers, and the benchmarks that measure
//! allocation patterns on the heap and in a slab.
//!
//! The pool hands out leases on buffers and takes them back instead of freeing them.
//! It comes in two kinds. [`pool::BufferPool`] keeps its buffers in a slab and threads
//! a free list through the idle slots; a lease is the index of a slot.
//! [`stack::StackPool`] keeps a stack of idle buffers; a lease is the buffer itself,
//! which may outlive the pool. Both reuse first what came back last, and call their
//! allocator only where nothing is idle.
//!
//! - [`buffer`]: the buffer capability, the storage kinds, and the shrinking view.
//! - [`allocator`]: the allocator capability.
//! - [`model`], [`history`]: the slab pool as a mathematical value, and what holds of
//!   every sequence of leases and releases.
//! - [`plan`], [`workload`], [`measure`], [`record`]: the benchmarks, with [`store`]
//!   for the slab that they run on.

pub mod allocator;
pub mod buffer;
pub mod history;
pub mod measure;
pub mod model;
pub mod plan;
pub mod pool;
pub mod record;
pub mod stack;
pub mod store;
pub mod workload;
