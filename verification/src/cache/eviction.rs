//! The LRU eviction policy. When the memory pool is full, the candidate for
//! removal is:
//!
//!   1. the clean entry with the oldest access, which can go without a disk
//!      write; or, when every entry is dirty,
//!   2. the entry with the oldest access, which must be written back first.

use vstd::prelude::*;

use super::entry::CacheEntry;
use super::lba_table::{dirty_keys, has_clean, oldest_entry, LbaTable};

verus! {

/// Result of an eviction decision.
#[derive(Debug, Clone, Copy)]
pub struct EvictionCandidate {
    /// The LBA of the block that should be evicted.
    pub lba: u64,
    /// The pool index of the evicted block (to be returned to the free list).
    pub pool_index: usize,
    /// Whether the evicted block is dirty and needs to be flushed first.
    pub needs_flush: bool,
}

/// The candidate that names entry `e`.
pub open spec fn candidate_of(e: CacheEntry, needs_flush: bool) -> EvictionCandidate {
    EvictionCandidate { lba: e.lba, pool_index: e.pool_index, needs_flush }
}

/// `c` is what the policy may choose from the entries `m`: the oldest clean
/// entry when there is one, else the oldest entry, to be flushed first.
pub open spec fn is_eviction_choice(m: Map<u64, CacheEntry>, c: EvictionCandidate) -> bool {
    exists|e: CacheEntry|
        #![trigger candidate_of(e, true)]
        #![trigger candidate_of(e, false)]
        if has_clean(m) {
            oldest_entry(m, e, true) && c == candidate_of(e, false)
        } else {
            oldest_entry(m, e, false) && c == candidate_of(e, true)
        }
}

/// Select the eviction candidate from the current cache contents, or `None`
/// if the table is empty.
pub fn select_eviction_candidate(table: &LbaTable) -> (r: Option<EvictionCandidate>)
    requires
        table.wf(),
    ensures
        r is None <==> table@.len() == 0,
        r matches Some(c) ==> is_eviction_choice(table@, c),
{
    let (clean, any) = table.oldest_entries();
    match any {
        None => None,
        Some(oldest) => match clean {
            Some(e) => {
                let c = EvictionCandidate { lba: e.lba, pool_index: e.pool_index, needs_flush: false };
                assert(oldest_entry(table@, e, true) && c == candidate_of(e, false));
                Some(c)
            },
            None => {
                let c = EvictionCandidate {
                    lba: oldest.lba,
                    pool_index: oldest.pool_index,
                    needs_flush: true,
                };
                assert(oldest_entry(table@, oldest, false) && c == candidate_of(oldest, true));
                Some(c)
            },
        },
    }
}

/// Scan entries sorted oldest first for the first clean one.
pub fn find_oldest_clean(entries: &[CacheEntry]) -> (r: Option<EvictionCandidate>)
    ensures
        r is None <==> forall|i: int| 0 <= i < entries@.len() ==> #[trigger] entries@[i].dirty,
        r matches Some(c) ==> exists|i: int|
            0 <= i < entries@.len() && !(#[trigger] entries@[i]).dirty
                && c == candidate_of(entries@[i], false)
                && forall|j: int| 0 <= j < i ==> #[trigger] entries@[j].dirty,
{
    let mut i: usize = 0;
    while i < entries.len()
        invariant
            i <= entries@.len(),
            forall|j: int| 0 <= j < i ==> #[trigger] entries@[j].dirty,
        decreases entries@.len() - i,
    {
        let e = entries[i];
        if !e.is_dirty() {
            return Some(EvictionCandidate { lba: e.lba, pool_index: e.pool_index, needs_flush: false });
        }
        i = i + 1;
    }
    None
}

/// The policy flushes before evicting exactly when every entry is dirty;
/// the victim's entry is dirty exactly when it must be flushed; a clean
/// victim is the oldest clean entry, a dirty one the oldest entry; and a
/// clean eviction leaves every dirty LBA cached.
pub proof fn law_eviction_prefers_clean(m: Map<u64, CacheEntry>, c: EvictionCandidate)
    requires
        is_eviction_choice(m, c),
        forall|k: u64| #[trigger] m.contains_key(k) ==> m[k].lba == k,
    ensures
        c.needs_flush <==> !has_clean(m),
        m.contains_key(c.lba),
        m[c.lba].dirty == c.needs_flush,
        m[c.lba].pool_index == c.pool_index,
        forall|k: u64| #[trigger] m.contains_key(k) && (c.needs_flush || !m[k].dirty)
            ==> m[c.lba].last_access <= m[k].last_access,
        !c.needs_flush ==> dirty_keys(m.remove(c.lba)) == dirty_keys(m),
{
    let e = choose|e: CacheEntry|
        #![trigger candidate_of(e, true)]
        #![trigger candidate_of(e, false)]
        if has_clean(m) {
            oldest_entry(m, e, true) && c == candidate_of(e, false)
        } else {
            oldest_entry(m, e, false) && c == candidate_of(e, true)
        };
    let k = choose|k: u64| #[trigger] m.contains_key(k) && m[k] == e;
    assert(m[k].lba == k);
    if has_clean(m) {
    } else {
        let w = choose|w: u64| #[trigger] m.contains_key(w) && !m[w].dirty;
        assert(m.contains_key(w) && !m[w].dirty ==> has_clean(m));
    }
    if !c.needs_flush {
        assert(dirty_keys(m.remove(c.lba)) =~= dirty_keys(m));
    }
}

} // verus!
