//! Bookkeeping for one cached block: which LBA it holds, where its data lives
//! in the memory pool, whether it awaits write-back, and when it was last used.

use vstd::prelude::*;

verus! {

/// Metadata for one cached block.
///
/// `last_access` is a logical timestamp: the table's access clock at the
/// moment of the most recent insert or hit. A smaller value means an older
/// access, which is all the LRU policy reads from it.
#[derive(Debug, Clone, Copy)]
pub struct CacheEntry {
    /// Logical Block Address on the source device.
    pub lba: u64,
    /// Index of the block within the memory pool.
    pub pool_index: usize,
    /// `true` while the cached data differs from the device copy.
    pub dirty: bool,
    /// Logical time of the most recent access.
    pub last_access: u64,
    /// Number of accesses so far (saturating).
    pub access_count: u64,
}

/// `x + 1`, held at `u64::MAX`.
pub open spec fn saturating_inc(x: u64) -> u64 {
    if x == u64::MAX { x } else { (x + 1) as u64 }
}

impl CacheEntry {
    /// A new, clean entry for `lba` backed by pool block `pool_index`; the
    /// initial load counts as the first access.
    pub fn new(lba: u64, pool_index: usize) -> (e: Self)
        ensures
            e.lba == lba,
            e.pool_index == pool_index,
            !e.dirty,
            e.last_access == 0,
            e.access_count == 1,
    {
        CacheEntry { lba, pool_index, dirty: false, last_access: 0, access_count: 1 }
    }

    /// Record an access at logical time `now`.
    pub fn touch(&mut self, now: u64)
        ensures
            final(self).last_access == now,
            final(self).access_count == saturating_inc(old(self).access_count),
            final(self).lba == old(self).lba,
            final(self).pool_index == old(self).pool_index,
            final(self).dirty == old(self).dirty,
    {
        self.last_access = now;
        self.access_count = self.access_count.saturating_add(1);
    }

    /// Mark the entry as awaiting write-back; this is also an access.
    pub fn mark_dirty(&mut self, now: u64)
        ensures
            final(self).dirty,
            final(self).last_access == now,
            final(self).access_count == saturating_inc(old(self).access_count),
            final(self).lba == old(self).lba,
            final(self).pool_index == old(self).pool_index,
    {
        self.dirty = true;
        self.touch(now);
    }

    /// Clear the dirty flag after a successful write-back.
    pub fn mark_clean(&mut self)
        ensures
            *final(self) == (CacheEntry { dirty: false, ..*old(self) }),
    {
        self.dirty = false;
    }

    /// `true` if this block needs to be written back.
    pub fn is_dirty(&self) -> (b: bool)
        ensures
            b == self.dirty,
    {
        self.dirty
    }
}

} // verus!
