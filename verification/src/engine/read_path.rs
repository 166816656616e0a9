//! The steps of a read through the cache.
//!
//!   1. A hit copies the cached block into the caller's buffer.
//!   2. A miss reserves a pool block (evicting the LRU entry if the pool is
//!      full), the caller reads the device block into it, and the entry is
//!      inserted clean.
//!   3. When the eviction victim is dirty, the caller first writes it back.

use vstd::prelude::*;

use crate::cache::eviction::EvictionCandidate;

verus! {

/// Statistics returned by a single read operation.
#[derive(Debug, Clone, Copy)]
pub struct ReadResult {
    /// Whether the read was served from the cache.
    pub cache_hit: bool,
}

/// What the caller does next after asking for a pool block.
#[derive(Debug)]
pub enum SlotStep {
    /// A pool block is reserved for the new entry.
    Ready { pool_index: usize },
    /// The pool is full and its LRU entry is dirty: write `data` to the
    /// device at `candidate.lba`, wake the flusher, then reclaim the
    /// candidate.
    FlushFirst { candidate: EvictionCandidate, data: Vec<u8> },
}

/// The outcome of starting a read.
#[derive(Debug)]
pub enum ReadStep {
    /// Served from the cache; the buffer holds the block.
    Hit,
    /// A miss: read the device block into a buffer and finish the read.
    Fetch { pool_index: usize },
    /// A miss with a full pool whose LRU entry is dirty: write `data` to the
    /// device at `candidate.lba`, wake the flusher, reclaim the candidate,
    /// then fetch.
    FlushVictim { candidate: EvictionCandidate, data: Vec<u8> },
}

} // verus!
