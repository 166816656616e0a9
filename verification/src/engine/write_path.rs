//! The steps of a write through the cache, which is write-back: data goes to
//! the pool block and the entry is marked dirty; the flusher writes it to the
//! device later. When the share of dirty entries exceeds the watermark, the
//! caller wakes the flusher.

use vstd::prelude::*;

use crate::cache::eviction::EvictionCandidate;

verus! {

/// Statistics returned by a single write operation.
#[derive(Debug, Clone, Copy)]
pub struct WriteResult {
    /// Whether the write updated an existing cached block (`true`) or
    /// allocated a new one (`false`).
    pub was_update: bool,
}

/// A completed write and whether the flusher should be woken at once.
#[derive(Debug, Clone, Copy)]
pub struct WriteOutcome {
    /// What the write did.
    pub result: WriteResult,
    /// The dirty share exceeds the watermark.
    pub wake_flusher: bool,
}

/// The outcome of starting a write.
#[derive(Debug)]
pub enum WriteStep {
    /// The write is complete.
    Done(WriteOutcome),
    /// A new entry is needed and the pool is full with a dirty LRU entry:
    /// write `data` to the device at `candidate.lba`, wake the flusher,
    /// reclaim the candidate, then finish the write.
    FlushVictim { candidate: EvictionCandidate, data: Vec<u8> },
}

} // verus!
