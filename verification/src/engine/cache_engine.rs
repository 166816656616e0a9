//! The cache engine: the memory pool, the LBA table and the flush schedule
//! behind a block-level read/write API.
//!
//! Device I/O happens outside the engine. Each operation is a short
//! sequence of steps: the engine decides, the caller performs the I/O that
//! the step names and hands back the data, and the engine completes. At most
//! one pool block is reserved for a pending miss at a time.

use vstd::prelude::*;

use crate::cache::entry::{saturating_inc, CacheEntry};
use crate::cache::eviction::{candidate_of, is_eviction_choice, select_eviction_candidate, EvictionCandidate};
use crate::cache::lba_table::{
    cleaned, dirtied, dirty_keys, enumerates, flush_pair, stamped, touched, LbaTable,
};
use crate::error::{CacheError, CacheResult};
use crate::flush::scheduler::{watermark_exceeded, Fraction, FlushSchedule};
use crate::io::device::BlockDevice;
use crate::io::device_info::whole_blocks;
use crate::memory::aligned_allocator::PAGE_ALIGNMENT;
use crate::memory::pool::MemoryPool;

use super::config::{config_problem, validation_fits, CacheConfig, MIB};
use super::read_path::{ReadResult, ReadStep, SlotStep};
use super::write_path::{WriteOutcome, WriteResult, WriteStep};

verus! {

broadcast use vstd::std_specs::hash::group_hash_axioms;

/// Copy `src` into `dst`, which has the same length.
pub fn copy_bytes(dst: &mut [u8], src: &[u8])
    requires
        old(dst)@.len() == src@.len(),
    ensures
        final(dst)@ == src@,
{
    let mut i: usize = 0;
    while i < src.len()
        invariant
            dst@.len() == src@.len(),
            i <= src@.len(),
            forall|j: int| 0 <= j < i ==> #[trigger] dst@[j] == src@[j],
        decreases src@.len() - i,
    {
        dst[i] = src[i];
        i = i + 1;
    }
    proof {
        assert(dst@ =~= src@);
    }
}

/// The message of an exhausted pool with an empty table.
pub open spec fn inconsistent_pool_message() -> Seq<char> {
    "pool exhausted but cache table is empty \u{2014} inconsistent state"@
}

/// The cache engine.
pub struct CacheEngine {
    config: CacheConfig,
    device: BlockDevice,
    pool: MemoryPool,
    table: LbaTable,
    flush_schedule: FlushSchedule,
    max_lba: u64,
    reserved: Option<usize>,
}

/// The entry that a completed miss inserts for `lba` in pool block `index`:
/// a fresh entry, marked dirty (which counts one more access) for a write,
/// stamped with the clock `clock`.
pub open spec fn new_entry(lba: u64, index: usize, dirty: bool, clock: u64) -> CacheEntry {
    let e = CacheEntry { lba, pool_index: index, dirty: false, last_access: 0, access_count: 1 };
    stamped(if dirty { dirtied(e, 0) } else { e }, clock)
}

/// What `begin_read` of `lba` does: the engine `before` becomes `after`,
/// the buffer `buf_before` becomes `buf_after`, and `r` is returned.
pub open spec fn read_step(
    before: CacheEngine,
    lba: u64,
    buf_before: Seq<u8>,
    after: CacheEngine,
    buf_after: Seq<u8>,
    r: CacheResult<ReadStep>,
) -> bool {
    &&& after.wf()
    &&& after.spec_config() == before.spec_config()
    &&& after.spec_device() == before.spec_device()
    &&& after.spec_max_lba() == before.spec_max_lba()
    &&& after.schedule() == before.schedule()
    &&& lba >= before.spec_max_lba() ==> (r matches Err(CacheError::LbaOutOfRange { lba: l, max_lba: m })
        && l == lba && m == before.spec_max_lba() && after == before && buf_after
        == buf_before)
    &&& lba < before.spec_max_lba() && before.cached().contains_key(lba) ==> (r matches Ok(ReadStep::Hit)
        && buf_after == before.cached()[lba] && after.cached() == before.cached()
        && after.entries() == before.entries().insert(
        lba,
        touched(before.entries()[lba], before.clock())
    ) && after.free() == before.free() && after.reserved() == before.reserved())
    &&& lba < before.spec_max_lba() && !before.cached().contains_key(lba) ==> buf_after == buf_before
        && (before.free().len() > 0 ==> (r matches Ok(ReadStep::Fetch { pool_index })
        && pool_index == before.free().last() && after.entries() == before.entries()
        && after.cached() == before.cached() && after.free() == before.free().drop_last()
        && after.reserved() == Some(pool_index)))
        && (before.free().len() == 0 && before.entries().len() == 0 ==> (r matches Err(
        CacheError::Internal { message }
    ) && message@ == inconsistent_pool_message() && after.entries() == before.entries()
        && after.cached() == before.cached() && after.free() == before.free()))
        && (before.free().len() == 0
        && before.entries().len() > 0 ==> (r matches Ok(step) && match step {
        ReadStep::Fetch { pool_index } => exists|c: EvictionCandidate|
            #[trigger] is_eviction_choice(before.entries(), c) && !c.needs_flush && pool_index
                == c.pool_index && after.entries() == before.entries().remove(c.lba)
                && after.cached() == before.cached().remove(c.lba)
                && after.free() == before.free() && after.reserved() == Some(pool_index),
        ReadStep::FlushVictim { candidate, data } => is_eviction_choice(
            before.entries(),
            candidate,
        ) && candidate.needs_flush && before.dirty().contains(candidate.lba) && data@
            == before.cached()[candidate.lba] && after.entries() == before.entries()
            && after.cached() == before.cached() && after.free() == before.free()
            && after.reserved() is None,
        ReadStep::Hit => false
    }))
}

/// What `begin_write` of `written` to `lba` does: the engine `before` becomes
/// `after` and `r` is returned.
pub open spec fn write_step(
    before: CacheEngine,
    lba: u64,
    written: Seq<u8>,
    after: CacheEngine,
    r: CacheResult<WriteStep>,
) -> bool {
    &&& after.wf()
    &&& after.spec_config() == before.spec_config()
    &&& after.spec_device() == before.spec_device()
    &&& after.spec_max_lba() == before.spec_max_lba()
    &&& after.schedule() == before.schedule()
    &&& lba >= before.spec_max_lba() ==> (r matches Err(CacheError::LbaOutOfRange { lba: l, max_lba: m })
        && l == lba && m == before.spec_max_lba() && after == before)
    &&& lba < before.spec_max_lba() && before.spec_config().read_only ==> (r matches Err(
        CacheError::Config { message }
    ) && message@ == "write rejected: engine is in read-only mode"@ && after == before)
    &&& lba < before.spec_max_lba() && !before.spec_config().read_only && before.cached().contains_key(
        lba
    ) ==> (r matches Ok(WriteStep::Done(outcome)) && outcome.result.was_update
        && outcome.wake_flusher == after.wants_flush() && after.cached()
        == before.cached().insert(lba, written) && after.entries() == before.entries().insert(
        lba,
        dirtied(before.entries()[lba], before.clock())
    ) && after.free() == before.free() && after.reserved() == before.reserved())
    &&& lba < before.spec_max_lba() && !before.spec_config().read_only && !before.cached().contains_key(
        lba
    ) ==> (before.free().len() > 0 ==> (r matches Ok(WriteStep::Done(outcome))
        && !outcome.result.was_update && outcome.wake_flusher == after.wants_flush()
        && after.cached() == before.cached().insert(lba, written) && after.dirty()
        == before.dirty().insert(lba) && after.entries() == before.entries().insert(
            lba,
            new_entry(lba, before.free().last(), true, before.clock()),
        ) && after.free() == before.free().drop_last()
        && after.reserved() is None)) && (before.free().len() == 0
        && before.entries().len() == 0 ==> (r matches Err(CacheError::Internal { message })
        && message@ == inconsistent_pool_message() && after.entries() == before.entries()
        && after.cached() == before.cached() && after.free() == before.free()))
        && (before.free().len() == 0
        && before.entries().len() > 0 ==> (r matches Ok(step) && match step {
        WriteStep::Done(outcome) => exists|c: EvictionCandidate|
            #[trigger] is_eviction_choice(before.entries(), c) && !c.needs_flush
                && !outcome.result.was_update && outcome.wake_flusher == after.wants_flush()
                && after.cached() == before.cached().remove(c.lba).insert(lba, written)
                && after.dirty() == before.dirty().remove(c.lba).insert(lba)
                && after.entries() == before.entries().remove(c.lba).insert(
                    lba,
                    new_entry(lba, c.pool_index, true, before.clock()),
                )
                && after.free() == before.free() && after.reserved() is None,
        WriteStep::FlushVictim { candidate, data } => is_eviction_choice(
            before.entries(),
            candidate,
        ) && candidate.needs_flush && before.dirty().contains(candidate.lba) && data@
            == before.cached()[candidate.lba] && after.entries() == before.entries()
            && after.cached() == before.cached() && after.free() == before.free()
            && after.reserved() is None
    }))
}

/// What `finish_write` of `written` to `lba` does: the engine `before`
/// becomes `after` and `r` is returned.
pub open spec fn finish_write_step(
    before: CacheEngine,
    lba: u64,
    written: Seq<u8>,
    after: CacheEngine,
    r: CacheResult<WriteOutcome>,
) -> bool {
    &&& after.wf()
    &&& after.spec_config() == before.spec_config()
    &&& after.spec_device() == before.spec_device()
    &&& after.spec_max_lba() == before.spec_max_lba()
    &&& after.schedule() == before.schedule()
    &&& before.reserved() is None ==> (r matches Err(CacheError::Internal { message })
        && message@ == "no pool block is reserved for this miss"@ && after == before)
    &&& before.reserved() matches Some(index) ==> (r matches Ok(outcome) && !outcome.result.was_update
        && outcome.wake_flusher == after.wants_flush() && after.cached()
        == before.cached().insert(lba, written) && after.dirty() == before.dirty().insert(lba)
        && after.entries() == before.entries().insert(lba, new_entry(lba, index, true, before.clock()))
        && after.free() == before.free() && after.reserved() is None)
}

/// What `reclaim` of `candidate` does: the engine `before` becomes `after`
/// and `r` is returned.
pub open spec fn reclaim_step(
    before: CacheEngine,
    candidate: EvictionCandidate,
    after: CacheEngine,
    r: CacheResult<usize>,
) -> bool {
    &&& after.wf()
    &&& after.spec_config() == before.spec_config()
    &&& after.spec_device() == before.spec_device()
    &&& after.spec_max_lba() == before.spec_max_lba()
    &&& after.schedule() == before.schedule()
    &&& (before.entries().contains_key(candidate.lba) && before.entries()[candidate.lba].pool_index
        == candidate.pool_index) ==> (r == Ok::<usize, CacheError>(candidate.pool_index)
        && after.entries() == before.entries().remove(candidate.lba)
        && after.cached() == before.cached().remove(candidate.lba) && after.free() == before.free()
        && after.reserved() == Some(candidate.pool_index))
    &&& !(before.entries().contains_key(candidate.lba) && before.entries()[candidate.lba].pool_index
        == candidate.pool_index) ==> (r matches Err(CacheError::Internal { message })
        && message@ == "eviction candidate is no longer cached"@ && after == before)
}

/// What `finish_read` of `block`, just read from the device for `lba`,
/// does: the engine `before` becomes `after`, the buffer `buf_before`
/// becomes `buf_after`, and `r` is returned.
pub open spec fn finish_read_step(
    before: CacheEngine,
    lba: u64,
    block: Seq<u8>,
    buf_before: Seq<u8>,
    after: CacheEngine,
    buf_after: Seq<u8>,
    r: CacheResult<ReadResult>,
) -> bool {
    &&& after.wf()
    &&& after.spec_config() == before.spec_config()
    &&& after.spec_device() == before.spec_device()
    &&& after.spec_max_lba() == before.spec_max_lba()
    &&& after.schedule() == before.schedule()
    &&& before.reserved() is None ==> (r matches Err(CacheError::Internal { message })
        && message@ == "no pool block is reserved for this miss"@ && after == before && buf_after
        == buf_before)
    &&& before.reserved() matches Some(index) ==> (r matches Ok(res) && !res.cache_hit && buf_after
        == block && after.cached() == before.cached().insert(lba, block) && after.entries()
        == before.entries().insert(lba, new_entry(lba, index, false, before.clock())) && after.free()
        == before.free() && after.reserved() is None)
}

/// What `mark_flushed` of `lba` does: the engine `before` becomes `after`.
pub open spec fn mark_flushed_step(before: CacheEngine, lba: u64, after: CacheEngine) -> bool {
    &&& after.wf()
    &&& after.spec_config() == before.spec_config()
    &&& after.spec_device() == before.spec_device()
    &&& after.spec_max_lba() == before.spec_max_lba()
    &&& after.schedule() == before.schedule()
    &&& after.cached() == before.cached()
    &&& after.dirty() == before.dirty().remove(lba)
    &&& before.entries().contains_key(lba) ==> after.entries() == before.entries().insert(
        lba,
        cleaned(before.entries()[lba]),
    )
    &&& !before.entries().contains_key(lba) ==> after.entries() == before.entries()
    &&& after.clock() == before.clock()
    &&& after.free() == before.free()
    &&& after.reserved() == before.reserved()
}

impl CacheEngine {
    /// The entries of the LBA table.
    pub closed spec fn entries(&self) -> Map<u64, CacheEntry> {
        self.table@
    }

    /// The data cached for each LBA.
    pub closed spec fn cached(&self) -> Map<u64, Seq<u8>> {
        Map::new(
            |k: u64| self.table@.contains_key(k),
            |k: u64| self.pool.block(self.table@[k].pool_index as int),
        )
    }

    /// The LBAs whose cached data awaits write-back.
    pub open spec fn dirty(&self) -> Set<u64> {
        dirty_keys(self.entries())
    }

    /// The free pool blocks; the last one is used next.
    pub closed spec fn free(&self) -> Seq<usize> {
        self.pool.free()
    }

    /// The pool block held for a pending miss, if any.
    pub closed spec fn reserved(&self) -> Option<usize> {
        self.reserved
    }

    /// The table's logical clock.
    pub closed spec fn clock(&self) -> u64 {
        self.table.clock()
    }

    /// The configuration.
    pub closed spec fn spec_config(&self) -> CacheConfig {
        self.config
    }

    /// The block size in bytes.
    pub open spec fn spec_block_size(&self) -> nat {
        self.spec_config().block_size as nat
    }

    /// The number of addressable blocks of the device.
    pub closed spec fn spec_max_lba(&self) -> u64 {
        self.max_lba
    }

    /// The flush schedule.
    pub closed spec fn schedule(&self) -> FlushSchedule {
        self.flush_schedule
    }

    /// The device handle.
    pub closed spec fn spec_device(&self) -> BlockDevice {
        self.device
    }

    /// Whether the flusher is to be woken after a write that leaves the
    /// engine in this state.
    pub open spec fn wants_flush(&self) -> bool {
        watermark_exceeded(self.schedule().dirty_watermark, self.dirty().len(), self.entries().len())
    }

    /// Well-formedness: every table entry is keyed by its own LBA and owns a
    /// pool block that no other entry, no free-list slot and no reservation
    /// names; the free list has no repeats.
    pub closed spec fn wf(&self) -> bool {
        &&& self.pool.wf()
        &&& self.table.wf()
        &&& self.pool.spec_block_size() == self.config.block_size
        &&& forall|k: u64| #[trigger]
            self.table@.contains_key(k) ==> self.table@[k].lba == k && self.table@[k].pool_index
                < self.pool.spec_capacity()
        &&& forall|k1: u64, k2: u64|
            #[trigger] self.table@.contains_key(k1) && #[trigger] self.table@.contains_key(k2) && k1
                != k2 ==> self.table@[k1].pool_index != self.table@[k2].pool_index
        &&& self.pool.free().no_duplicates()
        &&& forall|i: int, k: u64|
            0 <= i < self.pool.free().len() && #[trigger] self.table@.contains_key(k) ==> #[trigger] self.pool.free()[i]
                != self.table@[k].pool_index
        &&& self.reserved matches Some(r) ==> {
            &&& r < self.pool.spec_capacity()
            &&& !self.pool.free().contains(r)
            &&& forall|k: u64| #[trigger] self.table@.contains_key(k) ==> self.table@[k].pool_index != r
        }
    }

    /// A well-formed engine keys each entry by its own LBA.
    pub proof fn law_entry_keyed_by_lba(&self, k: u64)
        requires
            self.wf(),
            self.entries().contains_key(k),
        ensures
            self.entries()[k].lba == k,
    {
    }

    /// The cached LBAs are exactly the LBAs of the table's entries, so a
    /// step that decides on `cached()` decides on the table.
    pub proof fn law_cached_keys_are_entries(&self)
        ensures
            self.cached().dom() == self.entries().dom(),
    {
        assert(self.cached().dom() =~= self.entries().dom());
    }

    /// Create an engine for a validated configuration on an opened device.
    /// Nothing is cached and no block is reserved.
    pub fn new(config: CacheConfig, device: BlockDevice) -> (r: CacheResult<Self>)
        requires
            validation_fits(config),
        ensures
            config_problem(config) matches Some(msg) ==> (r matches Err(CacheError::Config { message })
                && message@ == msg),
            config_problem(config) is None && config.cache_size_mb * MIB > isize::MAX - (PAGE_ALIGNMENT - 1)
                ==> (r matches Err(CacheError::Allocation { reason })
                && reason@ == "invalid layout: invalid parameters to Layout::from_size_align"@),
            config_problem(config) is None && config.cache_size_mb * MIB <= isize::MAX - (PAGE_ALIGNMENT - 1)
                ==> (r matches Ok(e) && e.wf() && e.cached() == Map::<u64, Seq<u8>>::empty()
                && e.entries() == Map::<u64, CacheEntry>::empty() && e.spec_config() == config
                && e.spec_device() == device && e.reserved() is None && e.free() == Seq::new(
                ((config.cache_size_mb * MIB) / (config.block_size as int)) as nat,
                |i: int| i as usize,
            ) && e.clock() == 0 && e.spec_max_lba()
                == whole_blocks(device.spec_info().total_bytes, config.block_size as u64)
                && e.schedule() == FlushSchedule {
                interval_secs: config.flush_interval_secs,
                dirty_watermark: config.dirty_watermark,
            }),
    {
        match config.validate() {
            Ok(()) => {},
            Err(e) => {
                return Err(e);
            },
        }
        let bytes = config.cache_size_bytes();
        let pool = match MemoryPool::new(bytes, config.block_size) {
            Ok(p) => p,
            Err(e) => {
                return Err(e);
            },
        };
        let table = LbaTable::new(config.block_count());
        let flush_schedule = FlushSchedule::new(config.flush_interval_secs, config.dirty_watermark);
        let max_lba = device.info().max_lba(config.block_size as u64);
        let engine = CacheEngine { config, device, pool, table, flush_schedule, max_lba, reserved: None };
        proof {
            assert forall|a: int, b: int| 0 <= a < b < engine.pool.free().len() implies engine.pool.free()[a]
                != engine.pool.free()[b] by {
                assert(engine.pool.free()[a] == a as usize);
                assert(engine.pool.free()[b] == b as usize);
            }
            assert(engine.cached() =~= Map::<u64, Seq<u8>>::empty());
        }
        Ok(engine)
    }

    /// `Ok` when `lba` is an addressable block of the device.
    fn validate_lba(&self, lba: u64) -> (r: CacheResult<()>)
        ensures
            lba < self.spec_max_lba() ==> r is Ok,
            lba >= self.spec_max_lba() ==> (r matches Err(CacheError::LbaOutOfRange { lba: l, max_lba: m })
                && l == lba && m == self.spec_max_lba()),
    {
        if lba >= self.max_lba {
            return Err(CacheError::LbaOutOfRange { lba, max_lba: self.max_lba });
        }
        Ok(())
    }

    /// Reserve a pool block for a new entry: the last free block, or the
    /// block of the LRU entry when the pool is full and that entry is clean.
    /// When it is dirty, nothing changes and the caller must write it back
    /// first. A reservation still held from an abandoned miss is dropped.
    fn acquire_slot(&mut self) -> (r: CacheResult<SlotStep>)
        requires
            old(self).wf(),
        ensures
            final(self).wf(),
            final(self).spec_config() == old(self).spec_config(),
            final(self).spec_device() == old(self).spec_device(),
            final(self).spec_max_lba() == old(self).spec_max_lba(),
            final(self).schedule() == old(self).schedule(),
            final(self).clock() == old(self).clock(),
            old(self).free().len() > 0 ==> (r matches Ok(SlotStep::Ready { pool_index })
                && pool_index == old(self).free().last() && final(self).free() == old(self).free().drop_last()
                && final(self).entries() == old(self).entries() && final(self).cached() == old(self).cached()
                && final(self).reserved() == Some(pool_index)),
            old(self).free().len() == 0 && old(self).entries().len() == 0 ==> (r matches Err(
                CacheError::Internal { message },
            ) && message@ == inconsistent_pool_message() && final(self).entries() == old(self).entries()
                && final(self).cached() == old(self).cached() && final(self).free() == old(self).free()
                && final(self).reserved() is None),
            old(self).free().len() == 0 && old(self).entries().len() > 0 ==> (r matches Ok(step) && match step {
                SlotStep::Ready { pool_index } => exists|c: EvictionCandidate|
                    #[trigger] is_eviction_choice(old(self).entries(), c) && !c.needs_flush && pool_index
                        == c.pool_index && final(self).entries() == old(self).entries().remove(c.lba)
                        && final(self).cached() == old(self).cached().remove(c.lba)
                        && final(self).free() == old(self).free() && final(self).reserved() == Some(
                        pool_index,
                    ),
                SlotStep::FlushFirst { candidate, data } => is_eviction_choice(old(self).entries(), candidate)
                    && candidate.needs_flush && old(self).entries().contains_key(candidate.lba)
                    && old(self).entries()[candidate.lba].dirty && data@ == old(self).cached()[candidate.lba]
                    && final(self).entries() == old(self).entries() && final(self).cached()
                    == old(self).cached() && final(self).free() == old(self).free()
                    && final(self).reserved() is None,
            }),
    {
        self.reserved = None;
        let ghost e0 = *self;
        proof {
            self.pool.lemma_wf_facts();
        }
        if self.pool.free_count() > 0 {
            let ghost free0 = self.pool.free();
            match self.pool.allocate() {
                Ok((index, _buf)) => {
                    self.reserved = Some(index);
                    proof {
                        assert(free0 == free0.drop_last().push(index));
                        assert(self.pool.free() == free0.drop_last());
                        assert forall|a: int, b: int| 0 <= a < b < self.pool.free().len() implies self.pool.free()[a]
                            != self.pool.free()[b] by {
                            assert(free0[a] != free0[b]);
                        }
                        assert forall|i: int, k: u64|
                            0 <= i < self.pool.free().len() && #[trigger] self.table@.contains_key(k) implies #[trigger] self.pool.free()[i]
                                != self.table@[k].pool_index by {
                            assert(free0[i] == self.pool.free()[i]);
                        }
                        assert(!self.pool.free().contains(index)) by {
                            if self.pool.free().contains(index) {
                                let j = choose|j: int| 0 <= j < self.pool.free().len() && self.pool.free()[j] == index;
                                assert(free0[j] == free0[free0.len() - 1]);
                            }
                        }
                        assert forall|k: u64| #[trigger] self.table@.contains_key(k) implies self.table@[k].pool_index != index by {
                            assert(free0[free0.len() - 1] != self.table@[k].pool_index);
                        }
                        assert(self.cached() =~= e0.cached());
                    }
                    return Ok(SlotStep::Ready { pool_index: index });
                },
                Err(_) => {
                    assert(false);
                    return Err(CacheError::internal("pool allocation failed with free blocks"));
                },
            }
        }
        let candidate = match select_eviction_candidate(&self.table) {
            Some(c) => c,
            None => {
                return Err(
                    CacheError::internal(
                        "pool exhausted but cache table is empty \u{2014} inconsistent state",
                    ),
                );
            },
        };
        proof {
            let e = choose|e: CacheEntry|
                #![trigger candidate_of(e, true)]
                #![trigger candidate_of(e, false)]
                if crate::cache::lba_table::has_clean(self.table@) {
                    crate::cache::lba_table::oldest_entry(self.table@, e, true) && candidate == candidate_of(e, false)
                } else {
                    crate::cache::lba_table::oldest_entry(self.table@, e, false) && candidate == candidate_of(e, true)
                };
            let k = choose|k: u64| #[trigger] self.table@.contains_key(k) && self.table@[k] == e;
            assert(self.table@[k].lba == k);
            assert(candidate.lba == k);
            assert(self.table@.contains_key(candidate.lba));
            assert(self.table@[candidate.lba].pool_index == candidate.pool_index);
            if candidate.needs_flush {
                assert(!crate::cache::lba_table::has_clean(self.table@));
                assert(self.table@[k].dirty);
            }
        }
        if candidate.needs_flush {
            let data = self.pool.read_block(candidate.pool_index);
            return Ok(SlotStep::FlushFirst { candidate, data });
        }
        let index = self.take_entry_block(candidate);
        proof {
            assert(is_eviction_choice(e0.entries(), candidate));
        }
        Ok(SlotStep::Ready { pool_index: index })
    }

    /// Remove the entry of `candidate.lba`, whose block is
    /// `candidate.pool_index`, and reserve that block for a new entry.
    fn take_entry_block(&mut self, candidate: EvictionCandidate) -> (index: usize)
        requires
            old(self).wf(),
            old(self).entries().contains_key(candidate.lba),
            old(self).entries()[candidate.lba].pool_index == candidate.pool_index,
            old(self).reserved() is None,
        ensures
            final(self).wf(),
            index == candidate.pool_index,
            final(self).spec_config() == old(self).spec_config(),
            final(self).spec_device() == old(self).spec_device(),
            final(self).spec_max_lba() == old(self).spec_max_lba(),
            final(self).schedule() == old(self).schedule(),
            final(self).clock() == old(self).clock(),
            final(self).entries() == old(self).entries().remove(candidate.lba),
            final(self).cached() == old(self).cached().remove(candidate.lba),
            final(self).free() == old(self).free(),
            final(self).reserved() == Some(index),
    {
        let ghost e0 = *self;
        self.table.remove(candidate.lba);
        self.pool.deallocate(candidate.pool_index);
        let index = match self.pool.allocate() {
            Ok((i, _buf)) => i,
            Err(_) => {
                assert(false);
                0
            },
        };
        self.reserved = Some(index);
        proof {
            assert(self.pool.free() =~= e0.pool.free());
            assert(self.cached() =~= e0.cached().remove(candidate.lba));
        }
        index
    }

    /// Start a read of block `lba` into `buf`.
    ///
    /// An LBA outside the device fails with `LbaOutOfRange`. A hit copies
    /// the cached data into `buf` and records the access. A miss reserves a
    /// pool block (`Fetch`), or asks for the dirty LRU entry to be written
    /// back first (`FlushVictim`).
    pub fn begin_read(&mut self, lba: u64, buf: &mut [u8]) -> (r: CacheResult<ReadStep>)
        requires
            old(self).wf(),
            old(buf)@.len() == old(self).spec_block_size(),
        ensures
            read_step(*old(self), lba, old(buf)@, *final(self), final(buf)@, r),
    {
        match self.validate_lba(lba) {
            Ok(()) => {},
            Err(e) => {
                return Err(e);
            },
        }
        let ghost e0 = *self;
        match self.table.get_and_touch(lba) {
            Some(index) => {
                proof {
                    assert(e0.table@.contains_key(lba));
                }
                let data = self.pool.read_block(index);
                proof {
                    self.pool.lemma_block_len(index as int);
                }
                copy_bytes(buf, data.as_slice());
                proof {
                    assert forall|k1: u64, k2: u64|
                        #[trigger] self.table@.contains_key(k1) && #[trigger] self.table@.contains_key(k2) && k1
                            != k2 implies self.table@[k1].pool_index != self.table@[k2].pool_index by {
                        assert(e0.table@.contains_key(k1) && e0.table@.contains_key(k2));
                    }
                    assert forall|i: int, k: u64|
                        0 <= i < self.pool.free().len() && #[trigger] self.table@.contains_key(k) implies #[trigger] self.pool.free()[i]
                            != self.table@[k].pool_index by {
                        assert(e0.table@.contains_key(k));
                    }
                    assert(self.cached() =~= e0.cached());
                }
                return Ok(ReadStep::Hit);
            },
            None => {},
        }
        proof {
            assert(!e0.table@.contains_key(lba));
        }
        match self.acquire_slot() {
            Ok(SlotStep::Ready { pool_index }) => Ok(ReadStep::Fetch { pool_index }),
            Ok(SlotStep::FlushFirst { candidate, data }) => Ok(ReadStep::FlushVictim { candidate, data }),
            Err(e) => Err(e),
        }
    }

    /// After a `FlushVictim` step and a successful write-back of the victim:
    /// remove the victim's entry and reserve its pool block. Fails with
    /// `Internal` if the victim is no longer cached in that block.
    pub fn reclaim(&mut self, candidate: EvictionCandidate) -> (r: CacheResult<usize>)
        requires
            old(self).wf(),
        ensures
            reclaim_step(*old(self), candidate, *final(self), r),
    {
        match self.table.get(candidate.lba) {
            Some(e) => {
                if e.pool_index == candidate.pool_index {
                    self.reserved = None;
                    let index = self.take_entry_block(candidate);
                    return Ok(index);
                }
            },
            None => {},
        }
        Err(CacheError::internal("eviction candidate is no longer cached"))
    }

    /// Complete a miss: store `block`, just read from the device, in the
    /// reserved pool block, insert a clean entry for `lba`, and copy the data
    /// into `buf`. Fails with `Internal` when no block is reserved.
    pub fn finish_read(&mut self, lba: u64, block: &[u8], buf: &mut [u8]) -> (r: CacheResult<ReadResult>)
        requires
            old(self).wf(),
            block@.len() == old(self).spec_block_size(),
            old(buf)@.len() == old(self).spec_block_size(),
        ensures
            finish_read_step(*old(self), lba, block@, old(buf)@, *final(self), final(buf)@, r),
    {
        match self.reserved {
            None => Err(CacheError::internal("no pool block is reserved for this miss")),
            Some(index) => {
                self.fill_reserved(index, lba, block, false);
                copy_bytes(buf, block);
                Ok(ReadResult { cache_hit: false })
            },
        }
    }

    /// Store `block` in the reserved block `index` and insert an entry for
    /// `lba` naming it, clean or dirty.
    fn fill_reserved(&mut self, index: usize, lba: u64, block: &[u8], dirty: bool)
        requires
            old(self).wf(),
            old(self).reserved() == Some(index),
            block@.len() == old(self).spec_block_size(),
        ensures
            final(self).wf(),
            final(self).spec_config() == old(self).spec_config(),
            final(self).spec_device() == old(self).spec_device(),
            final(self).spec_max_lba() == old(self).spec_max_lba(),
            final(self).schedule() == old(self).schedule(),
            final(self).cached() == old(self).cached().insert(lba, block@),
            final(self).entries() == old(self).entries().insert(lba, new_entry(lba, index, dirty, old(self).clock())),
            final(self).clock() == saturating_inc(old(self).clock()),
            final(self).free() == old(self).free(),
            final(self).reserved() is None,
    {
        let ghost e0 = *self;
        self.pool.write_block(index, block);
        let mut entry = CacheEntry::new(lba, index);
        if dirty {
            entry.mark_dirty(0);
        }
        self.table.insert(lba, entry);
        self.reserved = None;
        proof {
            assert forall|k: u64| #[trigger] self.table@.contains_key(k) implies self.table@[k].lba == k
                && self.table@[k].pool_index < self.pool.spec_capacity() by {
                if k != lba {
                    assert(e0.table@.contains_key(k));
                }
            }
            assert forall|k1: u64, k2: u64|
                #[trigger] self.table@.contains_key(k1) && #[trigger] self.table@.contains_key(k2) && k1 != k2
                    implies self.table@[k1].pool_index != self.table@[k2].pool_index by {
                if k1 != lba {
                    assert(e0.table@.contains_key(k1));
                }
                if k2 != lba {
                    assert(e0.table@.contains_key(k2));
                }
            }
            assert forall|i: int, k: u64|
                0 <= i < self.pool.free().len() && #[trigger] self.table@.contains_key(k) implies #[trigger] self.pool.free()[i]
                    != self.table@[k].pool_index by {
                if k != lba {
                    assert(e0.table@.contains_key(k));
                } else {
                    assert(e0.pool.free().contains(index) ==> false);
                    assert(e0.pool.free()[i] == self.pool.free()[i]);
                }
            }
            assert forall|k: u64| #[trigger] self.cached().contains_key(k) implies self.cached()[k]
                == e0.cached().insert(lba, block@)[k] by {
                if k != lba {
                    assert(e0.table@.contains_key(k));
                    assert(e0.table@[k].pool_index != index);
                    assert(self.pool.block(e0.table@[k].pool_index as int) == e0.pool.block(
                        e0.table@[k].pool_index as int,
                    ));
                }
            }
            assert(self.cached() =~= e0.cached().insert(lba, block@));
        }
    }

    /// Whether the dirty share now exceeds the watermark.
    fn dirty_share_exceeded(&self) -> (b: bool)
        requires
            self.wf(),
        ensures
            b == self.wants_flush(),
    {
        let dirty = self.table.dirty_count();
        let total = self.table.len();
        self.flush_schedule.should_flush_immediately(dirty, total)
    }

    /// Overwrite the cached block of `lba`, which is cached, with `buf` and
    /// mark its entry dirty.
    fn overwrite_cached(&mut self, lba: u64, buf: &[u8])
        requires
            old(self).wf(),
            old(self).entries().contains_key(lba),
            buf@.len() == old(self).spec_block_size(),
        ensures
            final(self).wf(),
            final(self).spec_config() == old(self).spec_config(),
            final(self).spec_device() == old(self).spec_device(),
            final(self).spec_max_lba() == old(self).spec_max_lba(),
            final(self).schedule() == old(self).schedule(),
            final(self).cached() == old(self).cached().insert(lba, buf@),
            final(self).entries() == old(self).entries().insert(
                lba,
                dirtied(old(self).entries()[lba], old(self).clock()),
            ),
            final(self).free() == old(self).free(),
            final(self).reserved() == old(self).reserved(),
    {
        let ghost e0 = *self;
        let entry = self.table.get(lba).unwrap();
        let index = entry.pool_index;
        self.pool.write_block(index, buf);
        self.table.mark_dirty(lba);
        proof {
            assert forall|k: u64| #[trigger] self.table@.contains_key(k) implies self.table@[k].lba == k
                && self.table@[k].pool_index < self.pool.spec_capacity() by {
                assert(e0.table@.contains_key(k));
            }
            assert forall|k1: u64, k2: u64|
                #[trigger] self.table@.contains_key(k1) && #[trigger] self.table@.contains_key(k2) && k1 != k2
                    implies self.table@[k1].pool_index != self.table@[k2].pool_index by {
                assert(e0.table@.contains_key(k1));
                assert(e0.table@.contains_key(k2));
            }
            assert forall|i: int, k: u64|
                0 <= i < self.pool.free().len() && #[trigger] self.table@.contains_key(k) implies #[trigger] self.pool.free()[i]
                    != self.table@[k].pool_index by {
                assert(e0.table@.contains_key(k));
                assert(e0.pool.free()[i] == self.pool.free()[i]);
            }
            assert forall|k: u64| #[trigger] self.cached().contains_key(k) implies self.cached()[k]
                == e0.cached().insert(lba, buf@)[k] by {
                if k != lba {
                    assert(e0.table@.contains_key(k));
                    assert(e0.table@[k].pool_index != index);
                    assert(self.pool.block(e0.table@[k].pool_index as int) == e0.pool.block(
                        e0.table@[k].pool_index as int,
                    ));
                }
            }
            assert(self.cached() =~= e0.cached().insert(lba, buf@));
        }
    }

    /// Start a write of `buf` to block `lba`.
    ///
    /// An LBA outside the device fails with `LbaOutOfRange`; a read-only
    /// engine refuses with `Config`. A cached block is overwritten and marked
    /// dirty; otherwise a pool block is reserved (evicting the clean LRU
    /// entry if the pool is full) and a dirty entry is inserted, or the dirty
    /// LRU entry must be written back first (`FlushVictim`).
    pub fn begin_write(&mut self, lba: u64, buf: &[u8]) -> (r: CacheResult<WriteStep>)
        requires
            old(self).wf(),
            buf@.len() == old(self).spec_block_size(),
        ensures
            write_step(*old(self), lba, buf@, *final(self), r),
    {
        match self.validate_lba(lba) {
            Ok(()) => {},
            Err(e) => {
                return Err(e);
            },
        }
        if self.config.read_only {
            return Err(CacheError::config("write rejected: engine is in read-only mode"));
        }
        if self.table.contains(lba) {
            self.overwrite_cached(lba, buf);
            let wake = self.dirty_share_exceeded();
            return Ok(WriteStep::Done(WriteOutcome { result: WriteResult { was_update: true }, wake_flusher: wake }));
        }
        let ghost e0 = *self;
        match self.acquire_slot() {
            Ok(SlotStep::Ready { pool_index }) => {
                let ghost e1 = *self;
                self.fill_reserved(pool_index, lba, buf, true);
                proof {
                    assert(self.dirty() =~= e1.dirty().insert(lba));
                    if e0.free().len() == 0 {
                        let c = choose|c: EvictionCandidate|
                            #[trigger] is_eviction_choice(e0.entries(), c) && !c.needs_flush && pool_index
                                == c.pool_index && e1.entries() == e0.entries().remove(c.lba)
                                && e1.cached() == e0.cached().remove(c.lba)
                                && e1.free() == e0.free() && e1.reserved() == Some(pool_index);
                        assert(e1.dirty() =~= e0.dirty().remove(c.lba));
                    }
                }
                let wake = self.dirty_share_exceeded();
                Ok(WriteStep::Done(WriteOutcome { result: WriteResult { was_update: false }, wake_flusher: wake }))
            },
            Ok(SlotStep::FlushFirst { candidate, data }) => Ok(WriteStep::FlushVictim { candidate, data }),
            Err(e) => Err(e),
        }
    }

    /// Complete a write that waited for a victim's write-back: store `buf`
    /// in the reserved pool block and insert a dirty entry for `lba`. Fails
    /// with `Internal` when no block is reserved.
    pub fn finish_write(&mut self, lba: u64, buf: &[u8]) -> (r: CacheResult<WriteOutcome>)
        requires
            old(self).wf(),
            buf@.len() == old(self).spec_block_size(),
        ensures
            finish_write_step(*old(self), lba, buf@, *final(self), r),
    {
        match self.reserved {
            None => Err(CacheError::internal("no pool block is reserved for this miss")),
            Some(index) => {
                let ghost e0 = *self;
                self.fill_reserved(index, lba, buf, true);
                proof {
                    assert(self.dirty() =~= e0.dirty().insert(lba));
                }
                let wake = self.dirty_share_exceeded();
                Ok(WriteOutcome { result: WriteResult { was_update: false }, wake_flusher: wake })
            },
        }
    }

    /// The dirty entries as `(lba, pool_index)` pairs, each once.
    pub fn dirty_blocks(&self) -> (r: Vec<(u64, usize)>)
        requires
            self.wf(),
        ensures
            exists|ks: Seq<u64>|
                #![trigger enumerates(self.dirty(), ks)]
                enumerates(self.dirty(), ks) && r@ == ks.map_values(|k: u64| flush_pair(self.entries()[k])),
    {
        let r = self.table.dirty_entries();
        proof {
            let ks = choose|ks: Seq<u64>|
                #![trigger enumerates(dirty_keys(self.table@), ks)]
                enumerates(dirty_keys(self.table@), ks) && r@ == ks.map_values(|k: u64| flush_pair(self.table@[k]));
            assert(r@ =~= ks.map_values(|k: u64| flush_pair(self.entries()[k])));
            assert(enumerates(self.dirty(), ks));
        }
        r
    }

    /// A copy of the data cached for `lba`, if it is cached.
    pub fn cached_block(&self, lba: u64) -> (r: Option<Vec<u8>>)
        requires
            self.wf(),
        ensures
            self.cached().contains_key(lba) ==> (r matches Some(v) && v@ == self.cached()[lba]),
            !self.cached().contains_key(lba) ==> r is None,
    {
        match self.table.get(lba) {
            Some(e) => Some(self.pool.read_block(e.pool_index)),
            None => None,
        }
    }

    /// Record that the data of `lba` has been written back: its entry
    /// becomes clean. No-op if `lba` is not cached.
    pub fn mark_flushed(&mut self, lba: u64)
        requires
            old(self).wf(),
        ensures
            mark_flushed_step(*old(self), lba, *final(self)),
    {
        let ghost e0 = *self;
        self.table.mark_clean(lba);
        proof {
            assert forall|k: u64| #[trigger] self.table@.contains_key(k) implies self.table@[k].lba == k
                && self.table@[k].pool_index < self.pool.spec_capacity() by {
                assert(e0.table@.contains_key(k));
            }
            assert forall|k1: u64, k2: u64|
                #[trigger] self.table@.contains_key(k1) && #[trigger] self.table@.contains_key(k2) && k1 != k2
                    implies self.table@[k1].pool_index != self.table@[k2].pool_index by {
                assert(e0.table@.contains_key(k1));
                assert(e0.table@.contains_key(k2));
            }
            assert forall|i: int, k: u64|
                0 <= i < self.pool.free().len() && #[trigger] self.table@.contains_key(k) implies #[trigger] self.pool.free()[i]
                    != self.table@[k].pool_index by {
                assert(e0.table@.contains_key(k));
            }
            assert(self.cached() =~= e0.cached());
            assert(self.dirty() =~= e0.dirty().remove(lba));
        }
    }

    /// The engine configuration.
    pub fn config(&self) -> (c: &CacheConfig)
        ensures
            *c == self.spec_config(),
    {
        &self.config
    }

    /// The block device handle.
    pub fn device(&self) -> (d: &BlockDevice)
        ensures
            *d == self.spec_device(),
    {
        &self.device
    }

    /// The memory pool.
    pub fn pool(&self) -> (p: &MemoryPool)
        requires
            self.wf(),
        ensures
            p.wf(),
            p.free() == self.free(),
    {
        &self.pool
    }

    /// The LBA table.
    pub fn table(&self) -> (t: &LbaTable)
        requires
            self.wf(),
        ensures
            t.wf(),
            t@ == self.entries(),
    {
        &self.table
    }

    /// The flush schedule.
    pub fn flush_schedule(&self) -> (s: FlushSchedule)
        ensures
            s == self.schedule(),
    {
        self.flush_schedule
    }

    /// Block size in bytes.
    pub fn block_size(&self) -> (n: usize)
        ensures
            n == self.spec_block_size(),
    {
        self.config.block_size
    }

    /// The number of addressable blocks of the device.
    pub fn max_lba(&self) -> (n: u64)
        ensures
            n == self.spec_max_lba(),
    {
        self.max_lba
    }
}

/// Read after write: when `begin_write` of `data` to `lba` completes at
/// once (`Done`), a following `begin_read` of `lba` is a hit and fills the
/// buffer with `data`.
pub proof fn law_read_after_write(
    e0: CacheEngine,
    lba: u64,
    data: Seq<u8>,
    e1: CacheEngine,
    w: CacheResult<WriteStep>,
    buf0: Seq<u8>,
    e2: CacheEngine,
    buf1: Seq<u8>,
    r: CacheResult<ReadStep>,
)
    requires
        write_step(e0, lba, data, e1, w),
        w matches Ok(WriteStep::Done(_)),
        read_step(e1, lba, buf0, e2, buf1, r),
    ensures
        r matches Ok(ReadStep::Hit),
        buf1 == data,
        e2.cached() == e1.cached(),
{
}

/// Read after a write that waited for a victim's write-back: once
/// `finish_write` of `data` to an addressable `lba` succeeds, a following
/// `begin_read` of `lba` is a hit and fills the buffer with `data`.
pub proof fn law_read_after_finished_write(
    e0: CacheEngine,
    lba: u64,
    data: Seq<u8>,
    e1: CacheEngine,
    w: CacheResult<WriteOutcome>,
    buf0: Seq<u8>,
    e2: CacheEngine,
    buf1: Seq<u8>,
    r: CacheResult<ReadStep>,
)
    requires
        lba < e0.spec_max_lba(),
        finish_write_step(e0, lba, data, e1, w),
        w is Ok,
        read_step(e1, lba, buf0, e2, buf1, r),
    ensures
        r matches Ok(ReadStep::Hit),
        buf1 == data,
        e2.cached() == e1.cached(),
{
}

/// Write-back safety: evicting the clean entry that the policy chose keeps
/// every dirty LBA cached; a dirty LBA leaves the cache only through a
/// `FlushVictim` step, whose data the caller writes back first.
pub proof fn law_clean_eviction_keeps_dirty(e: &CacheEngine, c: EvictionCandidate)
    requires
        e.wf(),
        is_eviction_choice(e.entries(), c),
        !c.needs_flush,
    ensures
        dirty_keys(e.entries().remove(c.lba)) == e.dirty(),
        e.cached().remove(c.lba).dom() == e.cached().dom().remove(c.lba),
{
    crate::cache::eviction::law_eviction_prefers_clean(e.entries(), c);
    assert(e.cached().remove(c.lba).dom() =~= e.cached().dom().remove(c.lba));
}

/// `e` holds `data` for `lba`: `lba` is addressable and cached with `data`,
/// so a read of `lba` on `e` is a hit that returns `data`.
pub open spec fn holds_block(e: CacheEngine, lba: u64, data: Seq<u8>) -> bool {
    &&& lba < e.spec_max_lba()
    &&& e.cached().contains_key(lba)
    &&& e.cached()[lba] == data
}

/// The step from `before` to `after` keeps the cached data of `lba`: if it
/// was cached, it still is, with the same bytes.
pub open spec fn keeps_block(before: CacheEngine, after: CacheEngine, lba: u64) -> bool {
    &&& after.spec_max_lba() == before.spec_max_lba()
    &&& before.cached().contains_key(lba) ==> after.cached().contains_key(lba) && after.cached()[lba]
        == before.cached()[lba]
}

/// A read or write of `k` on `e` evicts nothing, or cannot evict `lba`: `k`
/// is cached, a pool block is free, or `lba` is dirty (only clean entries
/// are evicted without a write-back).
pub open spec fn spares(e: CacheEngine, k: u64, lba: u64) -> bool {
    e.cached().contains_key(k) || e.free().len() > 0 || e.dirty().contains(lba)
}

/// A clean eviction by the policy never takes a dirty LBA.
proof fn lemma_clean_victim_not_dirty(e: CacheEngine, c: EvictionCandidate, lba: u64)
    requires
        e.wf(),
        is_eviction_choice(e.entries(), c),
        !c.needs_flush,
        e.dirty().contains(lba),
    ensures
        c.lba != lba,
{
    law_clean_eviction_keeps_dirty(&e, c);
    assert(!dirty_keys(e.entries().remove(c.lba)).contains(c.lba));
}

/// A `begin_read` of any LBA that spares `lba` keeps `lba`'s cached data.
pub proof fn law_read_keeps_block(
    e0: CacheEngine,
    k: u64,
    b0: Seq<u8>,
    e1: CacheEngine,
    b1: Seq<u8>,
    r: CacheResult<ReadStep>,
    lba: u64,
)
    requires
        e0.wf(),
        read_step(e0, k, b0, e1, b1, r),
        spares(e0, k, lba),
    ensures
        keeps_block(e0, e1, lba),
{
    e0.law_cached_keys_are_entries();
    if k < e0.spec_max_lba() && !e0.cached().contains_key(k) && e0.free().len() == 0 && e0.entries().len() > 0 {
        if let Ok(ReadStep::Fetch { pool_index }) = r {
            let c = choose|c: EvictionCandidate|
                #[trigger] is_eviction_choice(e0.entries(), c) && !c.needs_flush && pool_index == c.pool_index
                    && e1.entries() == e0.entries().remove(c.lba) && e1.cached() == e0.cached().remove(c.lba)
                    && e1.free() == e0.free() && e1.reserved() == Some(pool_index);
            lemma_clean_victim_not_dirty(e0, c, lba);
        }
    }
}

/// A `begin_write` of another LBA that spares `lba` keeps `lba`'s cached
/// data.
pub proof fn law_write_keeps_block(
    e0: CacheEngine,
    k: u64,
    written: Seq<u8>,
    e1: CacheEngine,
    r: CacheResult<WriteStep>,
    lba: u64,
)
    requires
        e0.wf(),
        write_step(e0, k, written, e1, r),
        k != lba,
        spares(e0, k, lba),
    ensures
        keeps_block(e0, e1, lba),
{
    e0.law_cached_keys_are_entries();
    if k < e0.spec_max_lba() && !e0.spec_config().read_only && !e0.cached().contains_key(k) && e0.free().len()
        == 0 && e0.entries().len() > 0 {
        if let Ok(WriteStep::Done(outcome)) = r {
            let c = choose|c: EvictionCandidate|
                #[trigger] is_eviction_choice(e0.entries(), c) && !c.needs_flush && !outcome.result.was_update
                    && outcome.wake_flusher == e1.wants_flush() && e1.cached() == e0.cached().remove(
                    c.lba,
                ).insert(k, written) && e1.dirty() == e0.dirty().remove(c.lba).insert(k) && e1.entries()
                    == e0.entries().remove(c.lba).insert(k, new_entry(k, c.pool_index, true, e0.clock()))
                    && e1.free() == e0.free() && e1.reserved() is None;
            lemma_clean_victim_not_dirty(e0, c, lba);
        }
    }
}

/// A `finish_write` of another LBA keeps `lba`'s cached data.
pub proof fn law_finish_write_keeps_block(
    e0: CacheEngine,
    k: u64,
    written: Seq<u8>,
    e1: CacheEngine,
    r: CacheResult<WriteOutcome>,
    lba: u64,
)
    requires
        finish_write_step(e0, k, written, e1, r),
        k != lba,
    ensures
        keeps_block(e0, e1, lba),
{
}

/// A `finish_read` of another LBA keeps `lba`'s cached data.
pub proof fn law_finish_read_keeps_block(
    e0: CacheEngine,
    k: u64,
    block: Seq<u8>,
    b0: Seq<u8>,
    e1: CacheEngine,
    b1: Seq<u8>,
    r: CacheResult<ReadResult>,
    lba: u64,
)
    requires
        finish_read_step(e0, k, block, b0, e1, b1, r),
        k != lba,
    ensures
        keeps_block(e0, e1, lba),
{
}

/// A `reclaim` of another LBA's block keeps `lba`'s cached data.
pub proof fn law_reclaim_keeps_block(
    e0: CacheEngine,
    c: EvictionCandidate,
    e1: CacheEngine,
    r: CacheResult<usize>,
    lba: u64,
)
    requires
        reclaim_step(e0, c, e1, r),
        c.lba != lba,
    ensures
        keeps_block(e0, e1, lba),
{
}

/// A `mark_flushed` of any LBA keeps every cached block.
pub proof fn law_mark_flushed_keeps_block(e0: CacheEngine, k: u64, e1: CacheEngine, lba: u64)
    requires
        mark_flushed_step(e0, k, e1),
    ensures
        keeps_block(e0, e1, lba),
{
}

/// A `begin_write` that ends in `Done` leaves the engine holding the
/// written data for its LBA.
pub proof fn law_write_holds_block(
    e0: CacheEngine,
    lba: u64,
    written: Seq<u8>,
    e1: CacheEngine,
    w: CacheResult<WriteStep>,
)
    requires
        write_step(e0, lba, written, e1, w),
        w matches Ok(WriteStep::Done(_)),
    ensures
        holds_block(e1, lba, written),
{
}

/// A `finish_write` of an addressable LBA that succeeds leaves the engine
/// holding the written data for it.
pub proof fn law_finish_write_holds_block(
    e0: CacheEngine,
    lba: u64,
    written: Seq<u8>,
    e1: CacheEngine,
    f: CacheResult<WriteOutcome>,
)
    requires
        finish_write_step(e0, lba, written, e1, f),
        f is Ok,
        lba < e0.spec_max_lba(),
    ensures
        holds_block(e1, lba, written),
{
}

/// Along a chain of steps that keep `lba`'s block, every state holds the
/// data of the first.
proof fn lemma_chain_holds(states: Seq<CacheEngine>, lba: u64, data: Seq<u8>, n: int)
    requires
        0 <= n < states.len(),
        holds_block(states[0], lba, data),
        forall|i: int| 0 <= i < states.len() - 1 ==> #[trigger] keeps_block(states[i], states[i + 1], lba),
    ensures
        holds_block(states[n], lba, data),
    decreases n,
{
    if n > 0 {
        lemma_chain_holds(states, lba, data, n - 1);
        let j = n - 1;
        assert(keeps_block(states[j], states[j + 1], lba));
        assert(j + 1 == n);
    }
}

/// Read after write, across other operations: once the engine holds `data`
/// for `lba` (as a completed write leaves it), any chain of steps that each
/// keep `lba`'s block (reads and writes of other LBAs that spare it,
/// completions and reclaims of other LBAs, write-backs) ends in a state
/// where `begin_read` of `lba` is a hit that returns `data`.
pub proof fn law_read_after_write_across_steps(
    states: Seq<CacheEngine>,
    lba: u64,
    data: Seq<u8>,
    buf0: Seq<u8>,
    e: CacheEngine,
    buf1: Seq<u8>,
    r: CacheResult<ReadStep>,
)
    requires
        states.len() > 0,
        holds_block(states[0], lba, data),
        forall|i: int| 0 <= i < states.len() - 1 ==> #[trigger] keeps_block(states[i], states[i + 1], lba),
        read_step(states.last(), lba, buf0, e, buf1, r),
    ensures
        r matches Ok(ReadStep::Hit),
        buf1 == data,
        e.cached() == states.last().cached(),
{
    lemma_chain_holds(states, lba, data, states.len() - 1);
}

/// Recording a write-back is no access: `mark_flushed` of `lba` only
/// clears that entry's dirty flag. Its stamp, access count, LBA and pool
/// block, every other entry, the cached data and the clock stay as they
/// were, so the LRU order is unchanged.
pub proof fn law_flush_is_no_access(e0: CacheEngine, lba: u64, e1: CacheEngine)
    requires
        mark_flushed_step(e0, lba, e1),
    ensures
        e1.entries().dom() == e0.entries().dom(),
        e0.entries().contains_key(lba) ==> {
            &&& !e1.entries()[lba].dirty
            &&& e1.entries()[lba].last_access == e0.entries()[lba].last_access
            &&& e1.entries()[lba].access_count == e0.entries()[lba].access_count
            &&& e1.entries()[lba].lba == e0.entries()[lba].lba
            &&& e1.entries()[lba].pool_index == e0.entries()[lba].pool_index
        },
        forall|k: u64| k != lba && #[trigger] e0.entries().contains_key(k) ==> e1.entries()[k] == e0.entries()[k],
        e1.clock() == e0.clock(),
        e1.cached() == e0.cached(),
{
    assert(e1.entries().dom() =~= e0.entries().dom());
}

} // verus!
