//! The record of a sequential benchmark run, which reads or writes
//! `block_count` consecutive blocks from LBA 0.

use vstd::prelude::*;

verus! {

/// Result of a sequential benchmark run.
#[derive(Debug, Clone)]
pub struct SequentialResult {
    /// Type of benchmark (read or write).
    pub operation: String,
    /// Whether the cache was active during this run.
    pub cached: bool,
    /// Number of blocks processed.
    pub block_count: usize,
    /// Size of each block in bytes.
    pub block_size: usize,
    /// Total elapsed wall-clock time in nanoseconds.
    pub elapsed_nanos: u128,
    /// Number of cache hits (only meaningful when `cached`).
    pub cache_hits: u64,
    /// Number of cache misses.
    pub cache_misses: u64,
}

impl SequentialResult {
    /// Total bytes transferred.
    pub fn total_bytes(&self) -> (n: usize)
        requires
            self.block_count * self.block_size <= usize::MAX,
        ensures
            n == self.block_count * self.block_size,
    {
        self.block_count * self.block_size
    }
}

} // verus!
