//! The arguments of the `cache`, `bench` and `info` subcommands.

use vstd::prelude::*;

use crate::flush::scheduler::Fraction;

verus! {

/// Arguments for the `cache` subcommand.
#[derive(Debug, Clone)]
pub struct CacheArgs {
    /// Path to the block device (e.g. /dev/sda, /dev/sdb1).
    pub device: String,
    /// Cache size in megabytes.
    pub cache_size: usize,
    /// Block size in bytes (a multiple of 4096).
    pub block_size: usize,
    /// Background flush interval in seconds.
    pub flush_interval: u64,
    /// Dirty watermark that triggers an immediate flush.
    pub dirty_watermark: Fraction,
    /// Open the device read-only.
    pub read_only: bool,
}

/// Arguments for the `bench` subcommand.
#[derive(Debug, Clone)]
pub struct BenchArgs {
    /// Path to the block device to benchmark.
    pub device: String,
    /// Benchmark mode: sequential, random, or all.
    pub mode: String,
    /// Number of blocks / operations per benchmark run.
    pub block_count: usize,
    /// Cache size in megabytes for the cached benchmark.
    pub cache_size: usize,
    /// Include write benchmarks (destructive).
    pub confirm_write: bool,
}

/// Arguments for the `info` subcommand.
#[derive(Debug, Clone)]
pub struct InfoArgs {
    /// Path to the block device to inspect.
    pub device: String,
}

} // verus!
