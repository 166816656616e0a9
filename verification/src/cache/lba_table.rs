//! The map from Logical Block Addresses to cache entries. It decides whether a
//! request is a hit or a miss, and it keeps the logical access clock that
//! stamps entries for the LRU policy.
//!
//! Beside the hash map the table keeps the list of its keys, each once, so
//! that the bulk queries (dirty entries, LRU order, statistics) walk the
//! entries in a definite order.

use std::collections::HashMap;
use vstd::prelude::*;

use super::entry::{saturating_inc, CacheEntry};
use crate::text::{decimal, decimal_text, joined};

verus! {

broadcast use vstd::std_specs::hash::group_hash_axioms;

/// `ks` lists the members of `s` exactly once each, in some order.
pub open spec fn enumerates(s: Set<u64>, ks: Seq<u64>) -> bool {
    ks.no_duplicates() && ks.to_set() == s
}

/// The keys whose entries await write-back.
pub open spec fn dirty_keys(m: Map<u64, CacheEntry>) -> Set<u64> {
    m.dom().filter(|k: u64| m[k].dirty)
}

/// The `(lba, pool_index)` pair that the flusher needs of an entry.
pub open spec fn flush_pair(e: CacheEntry) -> (u64, usize) {
    (e.lba, e.pool_index)
}

/// The entry as stored by an insert at logical time `t`.
pub open spec fn stamped(e: CacheEntry, t: u64) -> CacheEntry {
    CacheEntry { last_access: t, ..e }
}

/// The entry after a hit at logical time `t` (what `CacheEntry::touch` does).
pub open spec fn touched(e: CacheEntry, t: u64) -> CacheEntry {
    CacheEntry { last_access: t, access_count: saturating_inc(e.access_count), ..e }
}

/// The entry after a write at logical time `t` (what `CacheEntry::mark_dirty` does).
pub open spec fn dirtied(e: CacheEntry, t: u64) -> CacheEntry {
    CacheEntry { dirty: true, ..touched(e, t) }
}

/// The entry after a successful write-back.
pub open spec fn cleaned(e: CacheEntry) -> CacheEntry {
    CacheEntry { dirty: false, ..e }
}

/// Sum of the access counts of a sequence of entries.
pub open spec fn hits_sum(s: Seq<CacheEntry>) -> int
    decreases s.len(),
{
    if s.len() == 0 {
        0
    } else {
        hits_sum(s.drop_last()) + s.last().access_count
    }
}

/// The entries of `m` listed in the order of `ks`.
pub open spec fn entries_in(m: Map<u64, CacheEntry>, ks: Seq<u64>) -> Seq<CacheEntry> {
    ks.map_values(|k: u64| m[k])
}

/// `s` is ordered by `last_access`, oldest first.
pub open spec fn lru_sorted(s: Seq<CacheEntry>) -> bool {
    forall|i: int, j: int| 0 <= i < j < s.len() ==> s[i].last_access <= s[j].last_access
}

/// `e` is the entry of some key of `m` (a clean one when `clean_only`), and
/// no such entry was accessed earlier.
pub open spec fn oldest_entry(m: Map<u64, CacheEntry>, e: CacheEntry, clean_only: bool) -> bool {
    &&& exists|k: u64| #[trigger] m.contains_key(k) && m[k] == e
    &&& clean_only ==> !e.dirty
    &&& forall|k: u64| #[trigger] m.contains_key(k) && (clean_only ==> !m[k].dirty)
        ==> e.last_access <= m[k].last_access
}

/// Some entry of `m` is clean.
pub open spec fn has_clean(m: Map<u64, CacheEntry>) -> bool {
    exists|k: u64| #[trigger] m.contains_key(k) && !m[k].dirty
}

/// An enumeration has as many members as the set.
pub proof fn lemma_enumeration_len(s: Set<u64>, ks: Seq<u64>)
    requires
        enumerates(s, ks),
    ensures
        ks.len() == s.len(),
{
    ks.unique_seq_to_set();
}

/// Partial sums of access counts never exceed the full sum.
proof fn lemma_hits_sum_prefix(s: Seq<CacheEntry>, i: int)
    requires
        0 <= i <= s.len(),
    ensures
        0 <= hits_sum(s.subrange(0, i)) <= hits_sum(s),
    decreases s.len() - i,
{
    if i < s.len() {
        lemma_hits_sum_prefix(s, i + 1);
        assert(s.subrange(0, i + 1).drop_last() =~= s.subrange(0, i));
    } else {
        assert(s.subrange(0, i) =~= s);
    }
    lemma_hits_sum_nonneg(s.subrange(0, i));
}

proof fn lemma_hits_sum_nonneg(s: Seq<CacheEntry>)
    ensures
        hits_sum(s) >= 0,
    decreases s.len(),
{
    if s.len() > 0 {
        lemma_hits_sum_nonneg(s.drop_last());
    }
}

/// Aggregate statistics of the table.
#[derive(Debug, Clone, Copy)]
pub struct TableStats {
    /// Total number of entries in the table.
    pub total_entries: usize,
    /// Number of entries marked dirty (pending flush).
    pub dirty_entries: usize,
    /// Sum of all access counts across all entries.
    pub total_hits: u64,
}

/// The one-line rendering of statistics.
pub open spec fn stats_text(s: TableStats) -> Seq<char> {
    "entries="@ + decimal(s.total_entries as nat) + ", dirty="@ + decimal(s.dirty_entries as nat)
        + ", total_hits="@ + decimal(s.total_hits as nat)
}

impl TableStats {
    /// `entries=N, dirty=D, total_hits=H`.
    pub fn summary(&self) -> (r: String)
        ensures
            r@ == stats_text(*self),
    {
        let e = decimal_text(self.total_entries as u64);
        let d = decimal_text(self.dirty_entries as u64);
        let h = decimal_text(self.total_hits);
        let m1 = joined("entries=", e.as_str());
        let m2 = joined(m1.as_str(), ", dirty=");
        let m3 = joined(m2.as_str(), d.as_str());
        let m4 = joined(m3.as_str(), ", total_hits=");
        joined(m4.as_str(), h.as_str())
    }
}

/// LBA → CacheEntry lookup table.
pub struct LbaTable {
    map: HashMap<u64, CacheEntry>,
    keys: Vec<u64>,
    clock: u64,
}

impl View for LbaTable {
    type V = Map<u64, CacheEntry>;

    closed spec fn view(&self) -> Map<u64, CacheEntry> {
        self.map@
    }
}

/// The entry of table `t` for `lba`, if it has one.
pub open spec fn lookup(t: LbaTable, lba: u64) -> Option<CacheEntry> {
    if t@.contains_key(lba) {
        Some(t@[lba])
    } else {
        None
    }
}

/// What `insert` of `entry` for `lba` does: the table `before` becomes
/// `after` and `r` is returned.
pub open spec fn insert_step(
    before: LbaTable,
    lba: u64,
    entry: CacheEntry,
    after: LbaTable,
    r: Option<CacheEntry>,
) -> bool {
    &&& after.wf()
    &&& after@ == before@.insert(lba, stamped(entry, before.clock()))
    &&& after.clock() == saturating_inc(before.clock())
    &&& r == lookup(before, lba)
}

/// What `remove` of `lba` does: the table `before` becomes `after` and `r`
/// is returned.
pub open spec fn remove_step(before: LbaTable, lba: u64, after: LbaTable, r: Option<CacheEntry>) -> bool {
    &&& after.wf()
    &&& after@ == before@.remove(lba)
    &&& after.clock() == before.clock()
    &&& r == lookup(before, lba)
}

/// What `mark_dirty` of `lba` does: the table `before` becomes `after`.
pub open spec fn mark_dirty_step(before: LbaTable, lba: u64, after: LbaTable) -> bool {
    &&& after.wf()
    &&& before@.contains_key(lba) ==> {
        &&& after@ == before@.insert(lba, dirtied(before@[lba], before.clock()))
        &&& after.clock() == saturating_inc(before.clock())
    }
    &&& !before@.contains_key(lba) ==> after@ == before@ && after.clock() == before.clock()
}

/// `r` is what `stats` returns for the table `t`.
pub open spec fn stats_of(t: LbaTable, r: TableStats) -> bool {
    &&& r.total_entries == t@.len()
    &&& r.dirty_entries == dirty_keys(t@).len()
    &&& exists|ks: Seq<u64>|
        #![trigger enumerates(t@.dom(), ks)]
        enumerates(t@.dom(), ks) && r.total_hits == hits_sum(entries_in(t@, ks))
}

impl LbaTable {
    /// The logical time that the next insert or hit is stamped with.
    pub closed spec fn clock(&self) -> u64 {
        self.clock
    }

    /// Well-formedness: the key list enumerates the map, and no entry is
    /// stamped later than the clock.
    pub closed spec fn wf(&self) -> bool {
        &&& enumerates(self.map@.dom(), self.keys@)
        &&& forall|k: u64| #[trigger]
            self.map@.contains_key(k) ==> self.map@[k].last_access <= self.clock
    }

    /// Create an empty table; `capacity` is a pre-allocation hint.
    pub fn new(capacity: usize) -> (t: Self)
        ensures
            t.wf(),
            t@ == Map::<u64, CacheEntry>::empty(),
            t.clock() == 0,
    {
        let t = LbaTable { map: HashMap::with_capacity(capacity), keys: Vec::new(), clock: 0 };
        assert(t.keys@.to_set() =~= t.map@.dom());
        t
    }

    /// `true` on a cache hit.
    pub fn contains(&self, lba: u64) -> (b: bool)
        requires
            self.wf(),
        ensures
            b == self@.contains_key(lba),
    {
        self.map.contains_key(&lba)
    }

    /// A copy of the entry for `lba`, if there is one.
    pub fn get(&self, lba: u64) -> (r: Option<CacheEntry>)
        requires
            self.wf(),
        ensures
            r == lookup(*self, lba),
    {
        match self.map.get(&lba) {
            Some(e) => Some(*e),
            None => None,
        }
    }

    /// Look up `lba`; on a hit, record the access and return the pool index.
    pub fn get_and_touch(&mut self, lba: u64) -> (r: Option<usize>)
        requires
            old(self).wf(),
        ensures
            final(self).wf(),
            old(self)@.contains_key(lba) ==> {
                &&& r == Some(old(self)@[lba].pool_index)
                &&& final(self)@ == old(self)@.insert(lba, touched(old(self)@[lba], old(self).clock()))
                &&& final(self).clock() == saturating_inc(old(self).clock())
            },
            !old(self)@.contains_key(lba) ==> {
                &&& r.is_none()
                &&& final(self)@ == old(self)@
                &&& final(self).clock() == old(self).clock()
            },
    {
        match self.map.get(&lba) {
            Some(e) => {
                let mut entry = *e;
                let now = self.clock;
                entry.touch(now);
                self.update_existing(lba, entry);
                Some(entry.pool_index)
            },
            None => None,
        }
    }

    /// Replace the entry of a key that is present, advancing the clock.
    fn update_existing(&mut self, lba: u64, entry: CacheEntry)
        requires
            old(self).wf(),
            old(self)@.contains_key(lba),
            entry.last_access <= old(self).clock(),
        ensures
            final(self).wf(),
            final(self)@ == old(self)@.insert(lba, entry),
            final(self).clock() == saturating_inc(old(self).clock()),
    {
        let ghost m0 = self.map@;
        self.map.insert(lba, entry);
        proof {
            assert(self.map@.dom() =~= m0.dom());
        }
        self.clock = self.clock.saturating_add(1);
    }

    /// Number of cached entries.
    pub fn len(&self) -> (n: usize)
        requires
            self.wf(),
        ensures
            n == self@.len(),
    {
        proof {
            lemma_enumeration_len(self.map@.dom(), self.keys@);
        }
        self.keys.len()
    }

    /// `true` if the table holds no entry.
    pub fn is_empty(&self) -> (b: bool)
        requires
            self.wf(),
        ensures
            b == (self@.len() == 0),
    {
        self.len() == 0
    }

    /// Insert `entry` under `lba`, stamped with the current logical time.
    /// The entry that `lba` had before, if any, is returned.
    pub fn insert(&mut self, lba: u64, entry: CacheEntry) -> (r: Option<CacheEntry>)
        requires
            old(self).wf(),
        ensures
            insert_step(*old(self), lba, entry, *final(self), r),
    {
        let mut e = entry;
        e.last_access = self.clock;
        let ghost m0 = self.map@;
        let ghost k0 = self.keys@;
        let old_entry = self.map.insert(lba, e);
        if old_entry.is_none() {
            self.keys.push(lba);
            proof {
                k0.lemma_push_to_set_commute(lba);
                assert(!k0.contains(lba)) by {
                    assert(!k0.to_set().contains(lba));
                }
                assert(self.keys@.to_set() =~= k0.to_set().insert(lba));
            }
        } else {
            proof {
                assert(self.map@.dom() =~= m0.dom());
            }
        }
        proof {
            assert(self.keys@.to_set() =~= self.map@.dom());
        }
        self.clock = self.clock.saturating_add(1);
        old_entry
    }

    /// Remove the entry for `lba` and return it, if there was one.
    pub fn remove(&mut self, lba: u64) -> (r: Option<CacheEntry>)
        requires
            old(self).wf(),
        ensures
            remove_step(*old(self), lba, *final(self), r),
    {
        let ghost m0 = self.map@;
        let ghost k0 = self.keys@;
        let removed = self.map.remove(&lba);
        if removed.is_some() {
            let mut i: usize = 0;
            while i < self.keys.len()
                invariant
                    self.keys@ == k0,
                    k0.contains(lba),
                    forall|j: int| 0 <= j < i ==> k0[j] != lba,
                    i <= k0.len(),
                ensures
                    i < k0.len() && k0[i as int] == lba,
                decreases self.keys.len() - i,
            {
                if self.keys[i] == lba {
                    break;
                }
                i = i + 1;
            }
            self.keys.swap_remove(i);
            proof {
                let k1 = self.keys@;
                assert forall|a: int, b: int| 0 <= a < b < k1.len() implies k1[a] != k1[b] by {
                    let a0 = if a == i { k0.len() - 1 } else { a };
                    let b0 = if b == i { k0.len() - 1 } else { b };
                    assert(k1[a] == k0[a0] && k1[b] == k0[b0]);
                }
                assert forall|x: u64| #[trigger] k1.to_set().contains(x) <==> self.map@.dom().contains(x) by {
                    if k1.to_set().contains(x) {
                        let a = choose|a: int| 0 <= a < k1.len() && k1[a] == x;
                        let a0 = if a == i { k0.len() - 1 } else { a };
                        assert(k0[a0] == x);
                        assert(x != lba);
                    }
                    if self.map@.dom().contains(x) {
                        assert(k0.to_set().contains(x));
                        let a0 = choose|a: int| 0 <= a < k0.len() && k0[a] == x;
                        if a0 == k0.len() - 1 {
                            assert(k1[i as int] == x);
                        } else {
                            assert(a0 != i);
                            assert(k1[a0] == x);
                        }
                    }
                }
                assert(k1.to_set() =~= self.map@.dom());
            }
        } else {
            proof {
                assert(self.map@ =~= m0);
            }
        }
        removed
    }

    /// Mark the entry for `lba` dirty (a write access). No-op if `lba` is not
    /// cached.
    pub fn mark_dirty(&mut self, lba: u64)
        requires
            old(self).wf(),
        ensures
            mark_dirty_step(*old(self), lba, *final(self)),
    {
        match self.map.get(&lba) {
            Some(e) => {
                let mut entry = *e;
                let now = self.clock;
                entry.mark_dirty(now);
                self.update_existing(lba, entry);
            },
            None => {},
        }
    }

    /// Mark the entry for `lba` clean after a write-back. No-op if `lba` is
    /// not cached.
    pub fn mark_clean(&mut self, lba: u64)
        requires
            old(self).wf(),
        ensures
            final(self).wf(),
            old(self)@.contains_key(lba) ==> final(self)@ == old(self)@.insert(lba, cleaned(old(self)@[lba])),
            !old(self)@.contains_key(lba) ==> final(self)@ == old(self)@,
            final(self).clock() == old(self).clock(),
    {
        match self.map.get(&lba) {
            Some(e) => {
                let mut entry = *e;
                entry.mark_clean();
                        let ghost m0 = self.map@;
                self.map.insert(lba, entry);
                proof {
                    assert(self.map@.dom() =~= m0.dom());
                }
                    },
            None => {},
        }
    }

    /// Collect all dirty entries as `(lba, pool_index)` pairs, each dirty
    /// entry once.
    pub fn dirty_entries(&self) -> (r: Vec<(u64, usize)>)
        requires
            self.wf(),
        ensures
            exists|ks: Seq<u64>|
                #![trigger enumerates(dirty_keys(self@), ks)]
                enumerates(dirty_keys(self@), ks) && r@ == ks.map_values(
                    |k: u64| flush_pair(self@[k]),
                ),
    {
        let ghost m = self@;
        let ghost all = self.keys@;
        let mut r: Vec<(u64, usize)> = Vec::new();
        let ghost mut ks: Seq<u64> = Seq::empty();
        let mut i: usize = 0;
        while i < self.keys.len()
            invariant
                m == self@,
                all == self.keys@,
                enumerates(m.dom(), all),
                i <= all.len(),
                ks.no_duplicates(),
                forall|j: int| 0 <= j < ks.len() ==> #[trigger] dirty_keys(m).contains(ks[j]),
                forall|j: int, a: int| 0 <= j < ks.len() && i <= a < all.len() ==> #[trigger] ks[j] != #[trigger] all[a],
                forall|a: int| 0 <= a < i && #[trigger] dirty_keys(m).contains(all[a]) ==> ks.contains(all[a]),
                r@ == ks.map_values(|k: u64| flush_pair(m[k])),
            decreases all.len() - i,
        {
            let k = self.keys[i];
            assert(m.contains_key(k)) by {
                assert(all.to_set().contains(all[i as int]));
            }
            let e = self.map.get(&k).unwrap();
            assert(*e == m[k]);
            let ghost ks_before = ks;
            if e.dirty {
                r.push((e.lba, e.pool_index));
                proof {
                    assert(!ks.contains(k)) by {
                        if ks.contains(k) {
                            let j = choose|j: int| 0 <= j < ks.len() && ks[j] == k;
                            assert(ks[j] != all[i as int]);
                        }
                    }
                    ks = ks.push(k);
                    assert(ks[ks.len() - 1] == k);
                    assert(r@ =~= ks.map_values(|k: u64| flush_pair(m[k])));
                }
            } else {
                assert(!dirty_keys(m).contains(k));
            }
            proof {
                assert forall|a: int| 0 <= a < i + 1 && #[trigger] dirty_keys(m).contains(all[a]) implies ks.contains(all[a]) by {
                    if a < i {
                        assert(ks_before.contains(all[a]));
                        let j = choose|j: int| 0 <= j < ks_before.len() && ks_before[j] == all[a];
                        assert(ks[j] == all[a]);
                    } else {
                        assert(ks[ks.len() - 1] == k);
                    }
                }
            }
            i = i + 1;
        }
        proof {
            assert forall|x: u64| #[trigger] ks.to_set().contains(x) <==> dirty_keys(m).contains(x) by {
                if ks.to_set().contains(x) {
                    let j = choose|j: int| 0 <= j < ks.len() && ks[j] == x;
                    assert(dirty_keys(m).contains(ks[j]));
                }
                if dirty_keys(m).contains(x) {
                    assert(all.to_set().contains(x));
                    let a = choose|a: int| 0 <= a < all.len() && all[a] == x;
                    assert(dirty_keys(m).contains(all[a]));
                }
            }
            assert(ks.to_set() =~= dirty_keys(m));
            assert(enumerates(dirty_keys(m), ks));
        }
        r
    }

    /// A snapshot of all entries, oldest access first.
    pub fn entries_by_lru(&self) -> (r: Vec<CacheEntry>)
        requires
            self.wf(),
        ensures
            exists|ks: Seq<u64>|
                #![trigger enumerates(self@.dom(), ks)]
                enumerates(self@.dom(), ks) && r@ == entries_in(self@, ks),
            lru_sorted(r@),
    {
        let ghost m = self@;
        let ghost all = self.keys@;
        let mut out: Vec<CacheEntry> = Vec::new();
        let ghost mut ks: Seq<u64> = Seq::empty();
        let mut i: usize = 0;
        while i < self.keys.len()
            invariant
                m == self@,
                all == self.keys@,
                enumerates(m.dom(), all),
                i <= all.len(),
                ks.no_duplicates(),
                forall|j: int| 0 <= j < ks.len() ==> #[trigger] m.contains_key(ks[j]),
                forall|j: int, a: int| 0 <= j < ks.len() && i <= a < all.len() ==> #[trigger] ks[j] != #[trigger] all[a],
                forall|a: int| 0 <= a < i ==> #[trigger] ks.contains(all[a]),
                out@ == entries_in(m, ks),
                lru_sorted(out@),
            decreases all.len() - i,
        {
            let k = self.keys[i];
            assert(m.contains_key(k)) by {
                assert(all.to_set().contains(all[i as int]));
            }
            let e = *self.map.get(&k).unwrap();
            let mut p: usize = 0;
            while p < out.len() && out[p].last_access <= e.last_access
                invariant
                    p <= out.len(),
                    forall|q: int| 0 <= q < p ==> #[trigger] out@[q].last_access <= e.last_access,
                decreases out.len() - p,
            {
                p = p + 1;
            }
            let ghost o0 = out@;
            let ghost ks0 = ks;
            out.insert(p, e);
            proof {
                assert(!ks0.contains(k)) by {
                    if ks0.contains(k) {
                        let j = choose|j: int| 0 <= j < ks0.len() && ks0[j] == k;
                        assert(ks0[j] != all[i as int]);
                    }
                }
                ks = ks0.insert(p as int, k);
                ks0.insert_ensures(p as int, k);
                assert forall|a: int, b: int| 0 <= a < b < ks.len() implies ks[a] != ks[b] by {
                    if a < p && b < p {
                    } else if a < p && b == p {
                        assert(ks0.contains(ks[a]));
                    } else if a < p {
                        assert(ks[b] == ks0[b - 1]);
                    } else if a == p {
                        assert(ks0.contains(ks[b]));
                    } else {
                        assert(ks[a] == ks0[a - 1] && ks[b] == ks0[b - 1]);
                    }
                }
                assert(out@ =~= entries_in(m, ks));
                assert forall|a: int, b: int| 0 <= a < b < out@.len() implies out@[a].last_access <= out@[b].last_access by {
                    if b < p {
                        assert(out@[a] == o0[a] && out@[b] == o0[b]);
                    } else if b == p {
                        assert(out@[a] == o0[a]);
                    } else if a < p {
                        assert(out@[a] == o0[a] && out@[b] == o0[b - 1]);
                        assert(o0[p as int].last_access > e.last_access);
                        if b - 1 > p {
                            assert(o0[p as int].last_access <= o0[b - 1].last_access);
                        }
                    } else if a == p {
                        assert(out@[b] == o0[b - 1]);
                        assert(o0[p as int].last_access > e.last_access);
                        if b - 1 > p {
                            assert(o0[p as int].last_access <= o0[b - 1].last_access);
                        }
                    } else {
                        assert(out@[a] == o0[a - 1] && out@[b] == o0[b - 1]);
                    }
                }
                assert forall|j: int, a: int| 0 <= j < ks.len() && i + 1 <= a < all.len() implies #[trigger] ks[j] != #[trigger] all[a] by {
                    if j < p {
                    } else if j == p {
                        assert(all[i as int] != all[a]);
                    } else {
                        assert(ks[j] == ks0[j - 1]);
                    }
                }
                assert forall|a: int| 0 <= a < i + 1 implies #[trigger] ks.contains(all[a]) by {
                    if a < i {
                        assert(ks0.contains(all[a]));
                        let j = choose|j: int| 0 <= j < ks0.len() && ks0[j] == all[a];
                        if j < p {
                            assert(ks[j] == all[a]);
                        } else {
                            assert(ks[j + 1] == all[a]);
                        }
                    } else {
                        assert(ks[p as int] == all[a]);
                    }
                }
            }
            i = i + 1;
        }
        proof {
            assert forall|x: u64| #[trigger] ks.to_set().contains(x) <==> m.dom().contains(x) by {
                if ks.to_set().contains(x) {
                    let j = choose|j: int| 0 <= j < ks.len() && ks[j] == x;
                    assert(m.contains_key(ks[j]));
                }
                if m.dom().contains(x) {
                    assert(all.to_set().contains(x));
                    let a = choose|a: int| 0 <= a < all.len() && all[a] == x;
                    assert(ks.contains(all[a]));
                }
            }
            assert(ks.to_set() =~= m.dom());
            assert(enumerates(m.dom(), ks));
        }
        out
    }

    /// Number of dirty entries.
    pub(crate) fn dirty_count(&self) -> (n: usize)
        requires
            self.wf(),
        ensures
            n == dirty_keys(self@).len(),
    {
        let d = self.dirty_entries();
        proof {
            let ks = choose|ks: Seq<u64>| #![trigger enumerates(dirty_keys(self@), ks)]
                enumerates(dirty_keys(self@), ks) && d@ == ks.map_values(|k: u64| flush_pair(self@[k]));
            lemma_enumeration_len(dirty_keys(self@), ks);
        }
        d.len()
    }

    /// Aggregate statistics. The sum of the access counts must fit in a
    /// `u64`.
    pub fn stats(&self) -> (r: TableStats)
        requires
            self.wf(),
            forall|ks: Seq<u64>| #[trigger] enumerates(self@.dom(), ks) ==> hits_sum(entries_in(self@, ks)) <= u64::MAX,
        ensures
            stats_of(*self, r),
    {
        let ghost m = self@;
        let ghost all = self.keys@;
        let ghost full = entries_in(m, all);
        assert(hits_sum(full) <= u64::MAX);
        let mut total_hits: u64 = 0;
        let mut i: usize = 0;
        while i < self.keys.len()
            invariant
                m == self@,
                all == self.keys@,
                full == entries_in(m, all),
                enumerates(m.dom(), all),
                hits_sum(full) <= u64::MAX,
                i <= all.len(),
                total_hits == hits_sum(full.subrange(0, i as int)),
            decreases all.len() - i,
        {
            let k = self.keys[i];
            assert(m.contains_key(k)) by {
                assert(all.to_set().contains(all[i as int]));
            }
            let e = self.map.get(&k).unwrap();
            proof {
                lemma_hits_sum_prefix(full, i + 1);
                assert(full.subrange(0, i + 1).drop_last() =~= full.subrange(0, i as int));
                assert(full[i as int] == *e);
            }
            total_hits = total_hits + e.access_count;
            i = i + 1;
        }
        proof {
            assert(full.subrange(0, i as int) =~= full);
        }
        TableStats { total_entries: self.len(), dirty_entries: self.dirty_count(), total_hits }
    }

    /// The oldest clean entry and the oldest entry overall, in one pass.
    pub(crate) fn oldest_entries(&self) -> (r: (Option<CacheEntry>, Option<CacheEntry>))
        requires
            self.wf(),
        ensures
            r.0 is None <==> !has_clean(self@),
            r.0 matches Some(e) ==> oldest_entry(self@, e, true),
            r.1 is None <==> self@.len() == 0,
            r.1 matches Some(e) ==> oldest_entry(self@, e, false),
    {
        let ghost m = self@;
        let ghost all = self.keys@;
        let mut best_clean: Option<CacheEntry> = None;
        let mut best_any: Option<CacheEntry> = None;
        let mut i: usize = 0;
        while i < self.keys.len()
            invariant
                m == self@,
                all == self.keys@,
                enumerates(m.dom(), all),
                i <= all.len(),
                best_any is None <==> i == 0,
                best_any matches Some(e) ==> {
                    &&& exists|a: int| 0 <= a < i && #[trigger] m[all[a]] == e
                    &&& forall|a: int| 0 <= a < i ==> e.last_access <= #[trigger] m[all[a]].last_access
                },
                best_clean is None ==> forall|a: int| 0 <= a < i ==> #[trigger] m[all[a]].dirty,
                best_clean matches Some(e) ==> {
                    &&& !e.dirty
                    &&& exists|a: int| 0 <= a < i && #[trigger] m[all[a]] == e
                    &&& forall|a: int| 0 <= a < i && !m[all[a]].dirty ==> e.last_access <= #[trigger] m[all[a]].last_access
                },
            decreases all.len() - i,
        {
            let k = self.keys[i];
            assert(m.contains_key(k)) by {
                assert(all.to_set().contains(all[i as int]));
            }
            let e = *self.map.get(&k).unwrap();
            assert(m[all[i as int]] == e);
            let take_any = match best_any {
                None => true,
                Some(b) => e.last_access < b.last_access,
            };
            if take_any {
                best_any = Some(e);
            }
            if !e.dirty {
                let take_clean = match best_clean {
                    None => true,
                    Some(b) => e.last_access < b.last_access,
                };
                if take_clean {
                    best_clean = Some(e);
                }
            }
            i = i + 1;
        }
        proof {
            assert forall|k: u64| #[trigger] m.contains_key(k) implies exists|a: int| 0 <= a < all.len() && all[a] == k by {
                assert(all.to_set().contains(k));
            }
            if let Some(e) = best_any {
                let a = choose|a: int| 0 <= a < i && #[trigger] m[all[a]] == e;
                assert(m.contains_key(all[a]));
                assert forall|k: u64| #[trigger] m.contains_key(k) implies e.last_access <= m[k].last_access by {
                    let a2 = choose|a2: int| 0 <= a2 < all.len() && all[a2] == k;
                    assert(e.last_access <= m[all[a2]].last_access);
                }
            } else {
                assert(all.len() == 0);
                lemma_enumeration_len(m.dom(), all);
            }
            if let Some(e) = best_clean {
                let a = choose|a: int| 0 <= a < i && #[trigger] m[all[a]] == e;
                assert(m.contains_key(all[a]));
                assert forall|k: u64| #[trigger] m.contains_key(k) && !m[k].dirty implies e.last_access <= m[k].last_access by {
                    let a2 = choose|a2: int| 0 <= a2 < all.len() && all[a2] == k;
                    assert(e.last_access <= m[all[a2]].last_access);
                }
            } else {
                assert forall|k: u64| #[trigger] m.contains_key(k) implies m[k].dirty by {
                    let a2 = choose|a2: int| 0 <= a2 < all.len() && all[a2] == k;
                    assert(m[all[a2]].dirty);
                }
            }
            if all.len() > 0 {
                lemma_enumeration_len(m.dom(), all);
            }
        }
        (best_clean, best_any)
    }

    /// No entry of a well-formed table is stamped later than its clock.
    pub proof fn lemma_stamps_bounded(&self)
        requires
            self.wf(),
        ensures
            forall|k: u64| #[trigger] self@.contains_key(k) ==> self@[k].last_access <= self.clock(),
    {
    }
}

/// Looking up an LBA right after `insert` of an entry for it finds that
/// entry, stamped with the time of the insert; the lookup of every other LBA
/// is unchanged.
pub proof fn law_lookup_after_insert(t0: LbaTable, lba: u64, e: CacheEntry, t1: LbaTable, r: Option<CacheEntry>)
    requires
        insert_step(t0, lba, e, t1, r),
    ensures
        lookup(t1, lba) == Some(CacheEntry { last_access: t0.clock(), ..e }),
        forall|k: u64| k != lba ==> #[trigger] lookup(t1, k) == lookup(t0, k),
{
}

/// After `remove` of an LBA, looking it up finds nothing, and a second
/// `remove` of it returns nothing and changes nothing.
pub proof fn law_remove_is_final(
    t0: LbaTable,
    lba: u64,
    t1: LbaTable,
    r1: Option<CacheEntry>,
    t2: LbaTable,
    r2: Option<CacheEntry>,
)
    requires
        remove_step(t0, lba, t1, r1),
        remove_step(t1, lba, t2, r2),
    ensures
        r1 == lookup(t0, lba),
        lookup(t1, lba) is None,
        r2 is None,
        t2@ == t1@,
{
    assert(t2@ =~= t1@);
}

/// Marking a cached LBA dirty adds it to the dirty set; marking it clean
/// afterwards takes it out again and leaves the other dirty LBAs alone.
pub proof fn law_dirty_then_clean(m: Map<u64, CacheEntry>, lba: u64, t: u64)
    requires
        m.contains_key(lba),
    ensures
        dirty_keys(m.insert(lba, dirtied(m[lba], t))) == dirty_keys(m).insert(lba),
        dirty_keys(m.insert(lba, dirtied(m[lba], t)).insert(lba, cleaned(dirtied(m[lba], t))))
            == dirty_keys(m).remove(lba),
{
    assert(dirty_keys(m.insert(lba, dirtied(m[lba], t))) =~= dirty_keys(m).insert(lba));
    assert(dirty_keys(m.insert(lba, dirtied(m[lba], t)).insert(lba, cleaned(dirtied(m[lba], t))))
        =~= dirty_keys(m).remove(lba));
}

/// A hit counts one more access, up to `u64::MAX`, and keeps the entry's
/// LBA, pool block and dirty flag.
pub proof fn law_hit_counts_access(e: CacheEntry, t: u64)
    ensures
        e.access_count < u64::MAX ==> touched(e, t).access_count == e.access_count + 1,
        e.access_count == u64::MAX ==> touched(e, t).access_count == u64::MAX,
        touched(e, t).lba == e.lba && touched(e, t).pool_index == e.pool_index && touched(e, t).dirty == e.dirty,
{
}

/// Right after a hit on `lba`, no entry of the table was accessed later than
/// `lba`'s.
pub proof fn law_hit_is_most_recent(table: &LbaTable, lba: u64)
    requires
        table.wf(),
        table@.contains_key(lba),
    ensures
        forall|k: u64| #[trigger] table@.insert(lba, touched(table@[lba], table.clock())).contains_key(k)
            ==> table@.insert(lba, touched(table@[lba], table.clock()))[k].last_access
                <= table@.insert(lba, touched(table@[lba], table.clock()))[lba].last_access,
{
    table.lemma_stamps_bounded();
}

/// The dirty LBAs are cached LBAs, so there are never more of them than
/// entries.
pub proof fn law_dirty_within_entries(m: Map<u64, CacheEntry>)
    requires
        m.dom().finite(),
    ensures
        dirty_keys(m).subset_of(m.dom()),
        dirty_keys(m).len() <= m.len(),
{
    vstd::set_lib::lemma_len_subset(dirty_keys(m), m.dom());
}

/// A write is an access: `mark_dirty` of a cached LBA sets its dirty flag,
/// stamps it with the current clock and counts one more access (up to
/// `u64::MAX`), so afterwards no entry was accessed later than it; its LBA
/// and pool block and every other entry stay as they were.
pub proof fn law_write_is_an_access(t0: LbaTable, lba: u64, t1: LbaTable)
    requires
        t0.wf(),
        t0@.contains_key(lba),
        mark_dirty_step(t0, lba, t1),
    ensures
        t1@.contains_key(lba),
        t1@[lba].dirty,
        t1@[lba].last_access == t0.clock(),
        t0@[lba].access_count < u64::MAX ==> t1@[lba].access_count == t0@[lba].access_count + 1,
        t0@[lba].access_count == u64::MAX ==> t1@[lba].access_count == u64::MAX,
        t1@[lba].lba == t0@[lba].lba,
        t1@[lba].pool_index == t0@[lba].pool_index,
        t1@.dom() == t0@.dom(),
        forall|k: u64| k != lba && #[trigger] t0@.contains_key(k) ==> t1@[k] == t0@[k],
        forall|k: u64| #[trigger] t1@.contains_key(k) ==> t1@[k].last_access <= t1@[lba].last_access,
{
    t0.lemma_stamps_bounded();
    assert(t1@.dom() =~= t0@.dom());
    assert forall|k: u64| #[trigger] t1@.contains_key(k) implies t1@[k].last_access <= t1@[lba].last_access by {
        if k != lba {
            assert(t0@.contains_key(k));
        }
    }
}

/// Every entry's access count is part of a sum of access counts.
proof fn lemma_hits_sum_contains(s: Seq<CacheEntry>, i: int)
    requires
        0 <= i < s.len(),
    ensures
        hits_sum(s) >= s[i].access_count,
    decreases s.len(),
{
    if i < s.len() - 1 {
        lemma_hits_sum_contains(s.drop_last(), i);
    } else {
        lemma_hits_sum_nonneg(s.drop_last());
    }
}

/// `total_hits` of `stats` counts every access of every entry: it is at
/// least each entry's access count, and equals it for a table of one entry.
pub proof fn law_stats_count_all_hits(t: LbaTable, r: TableStats)
    requires
        t.wf(),
        stats_of(t, r),
    ensures
        forall|k: u64| #[trigger] t@.contains_key(k) ==> t@[k].access_count <= r.total_hits,
        forall|k: u64| t@.dom() == set![k] ==> r.total_hits == #[trigger] t@[k].access_count,
        r.total_entries == t@.len(),
{
    let ks = choose|ks: Seq<u64>|
        #![trigger enumerates(t@.dom(), ks)]
        enumerates(t@.dom(), ks) && r.total_hits == hits_sum(entries_in(t@, ks));
    assert forall|k: u64| #[trigger] t@.contains_key(k) implies t@[k].access_count <= r.total_hits by {
        assert(ks.to_set().contains(k));
        let i = choose|i: int| 0 <= i < ks.len() && ks[i] == k;
        lemma_hits_sum_contains(entries_in(t@, ks), i);
    }
    assert forall|k: u64| t@.dom() == set![k] implies r.total_hits == #[trigger] t@[k].access_count by {
        lemma_enumeration_len(t@.dom(), ks);
        assert(set![k].len() == 1);
        assert(ks.len() == 1);
        assert(ks.to_set().contains(ks[0]));
        assert(ks[0] == k);
        let s = entries_in(t@, ks);
        assert(s.drop_last().len() == 0);
        assert(hits_sum(s.drop_last()) == 0);
    }
}

} // verus!
