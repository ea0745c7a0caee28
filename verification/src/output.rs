//! What the analysis reports.
use crate::types::{Timestamp, TraceIndex};
use vstd::prelude::*;

verus! {

/// Allocation metadata: the time, thread, and stack trace of an allocation event.
pub type AllocInfo = (Timestamp, /* thread_id */ usize, TraceIndex);

/// An error observed while matching deallocations to allocations.
#[derive(Copy, Clone, Debug)]
pub enum AllocError {
    /// Memory was allocated that had been allocated already.
    DoubleAlloc { ptr: u64, old: AllocInfo, new: AllocInfo },
    /// Memory was freed that was not allocated.
    DoubleFree { ptr: u64, info: AllocInfo },
    /// Memory was never freed.
    Leak { ptr: u64, info: AllocInfo },
}

/// Totals of what one thread allocated and one thread deallocated.
#[derive(Copy, Clone, Debug)]
pub struct AllocPerThreadPair {
    /// The thread that allocated.
    pub alloc_thread: usize,
    /// The thread that deallocated.
    pub dealloc_thread: usize,
    /// Number of allocations.
    pub count: isize,
    /// Number of bytes.
    pub size: isize,
}

/// A result of the analysis.
#[derive(Clone, Debug)]
pub enum OutputData {
    /// An error.
    AllocError(AllocError),
    /// The totals of one time window.
    AllocPerThreadPairs(Vec<AllocPerThreadPair>),
}

} // verus!
