use asm_cache_inject::cache::entry::CacheEntry;
use asm_cache_inject::cache::eviction::{find_oldest_clean, select_eviction_candidate};
use asm_cache_inject::cache::lba_table::LbaTable;

#[test]
fn evicts_oldest_clean_first() {
    let mut table = LbaTable::new(4);

    // Insert three entries; each insert is a later access than the one before.
    table.insert(1, CacheEntry::new(1, 10));
    table.insert(2, CacheEntry::new(2, 20));
    table.insert(3, CacheEntry::new(3, 30));

    // Mark the oldest (LBA 1) as dirty so it should be skipped.
    table.mark_dirty(1);

    let candidate = select_eviction_candidate(&table).unwrap();
    // Should evict LBA 2 (oldest clean), not LBA 1 (dirty).
    assert_eq!(candidate.lba, 2);
    assert!(!candidate.needs_flush);
}

#[test]
fn evicts_oldest_dirty_when_all_dirty() {
    let mut table = LbaTable::new(4);

    table.insert(1, CacheEntry::new(1, 10));
    table.insert(2, CacheEntry::new(2, 20));

    table.mark_dirty(1);
    table.mark_dirty(2);

    let candidate = select_eviction_candidate(&table).unwrap();
    assert_eq!(candidate.lba, 1); // oldest dirty
    assert!(candidate.needs_flush);
}

#[test]
fn empty_table_returns_none() {
    let table = LbaTable::new(4);
    assert!(select_eviction_candidate(&table).is_none());
}

#[test]
fn insert_and_lookup() {
    let mut table = LbaTable::new(16);
    let entry = CacheEntry::new(42, 7);
    assert!(table.insert(42, entry).is_none());
    assert!(table.contains(42));
    assert!(!table.contains(99));

    let got = table.get(42).unwrap();
    assert_eq!(got.lba, 42);
    assert_eq!(got.pool_index, 7);
}

#[test]
fn dirty_tracking() {
    let mut table = LbaTable::new(16);
    table.insert(10, CacheEntry::new(10, 0));

    assert!(table.dirty_entries().is_empty());

    table.mark_dirty(10);
    let dirty = table.dirty_entries();
    assert_eq!(dirty.len(), 1);
    assert_eq!(dirty[0], (10, 0));

    table.mark_clean(10);
    assert!(table.dirty_entries().is_empty());
}

#[test]
fn remove_entry() {
    let mut table = LbaTable::new(16);
    table.insert(5, CacheEntry::new(5, 3));
    assert!(table.remove(5).is_some());
    assert!(table.remove(5).is_none());
    assert!(!table.contains(5));
}

#[test]
fn get_and_touch_increments_access() {
    let mut table = LbaTable::new(16);
    table.insert(1, CacheEntry::new(1, 0));

    // Initial access_count is 1.
    let pool_idx = table.get_and_touch(1).unwrap();
    assert_eq!(pool_idx, 0);

    // After touch, access_count should be 2.
    let entry = table.get(1).unwrap();
    assert_eq!(entry.access_count, 2);
}

#[test]
fn new_entry_is_clean_with_one_access() {
    let e = CacheEntry::new(9, 4);
    assert_eq!(e.lba, 9);
    assert_eq!(e.pool_index, 4);
    assert!(!e.is_dirty());
    assert_eq!(e.access_count, 1);
}

#[test]
fn entry_touch_saturates_access_count() {
    let mut e = CacheEntry::new(1, 1);
    e.access_count = u64::MAX;
    e.touch(7);
    assert_eq!(e.access_count, u64::MAX);
    assert_eq!(e.last_access, 7);
    e.mark_dirty(8);
    assert!(e.is_dirty());
    e.mark_clean();
    assert!(!e.is_dirty());
    assert_eq!(e.last_access, 8);
}

#[test]
fn insert_returns_previous_entry() {
    let mut table = LbaTable::new(4);
    table.insert(3, CacheEntry::new(3, 1));
    let old = table.insert(3, CacheEntry::new(3, 2)).unwrap();
    assert_eq!(old.pool_index, 1);
    assert_eq!(table.get(3).unwrap().pool_index, 2);
    assert_eq!(table.len(), 1);
    assert!(!table.is_empty());
}

#[test]
fn entries_by_lru_orders_oldest_first() {
    let mut table = LbaTable::new(8);
    table.insert(30, CacheEntry::new(30, 0));
    table.insert(10, CacheEntry::new(10, 1));
    table.insert(20, CacheEntry::new(20, 2));
    table.get_and_touch(30);
    let order: Vec<u64> = table.entries_by_lru().iter().map(|e| e.lba).collect();
    assert_eq!(order, vec![10, 20, 30]);
}

#[test]
fn hit_entry_is_evicted_last() {
    let mut table = LbaTable::new(8);
    table.insert(1, CacheEntry::new(1, 0));
    table.insert(2, CacheEntry::new(2, 1));
    table.get_and_touch(1);
    let c = select_eviction_candidate(&table).unwrap();
    assert_eq!(c.lba, 2);
    assert_eq!(c.pool_index, 1);
}

#[test]
fn stats_count_entries_dirt_and_hits() {
    let mut table = LbaTable::new(8);
    table.insert(1, CacheEntry::new(1, 0));
    table.insert(2, CacheEntry::new(2, 1));
    table.insert(3, CacheEntry::new(3, 2));
    table.mark_dirty(2);
    table.get_and_touch(3);
    let s = table.stats();
    assert_eq!(s.total_entries, 3);
    assert_eq!(s.dirty_entries, 1);
    assert_eq!(s.total_hits, 1 + 2 + 2);
    assert_eq!(s.summary(), "entries=3, dirty=1, total_hits=5");
}

#[test]
fn dirty_entries_lists_each_dirty_entry_once() {
    let mut table = LbaTable::new(8);
    for lba in 0..6u64 {
        table.insert(lba, CacheEntry::new(lba, lba as usize));
    }
    table.mark_dirty(1);
    table.mark_dirty(4);
    table.mark_dirty(4);
    table.remove(0);
    let mut dirty = table.dirty_entries();
    dirty.sort();
    assert_eq!(dirty, vec![(1, 1), (4, 4)]);
}

#[test]
fn find_oldest_clean_takes_first_clean() {
    let mut a = CacheEntry::new(1, 5);
    a.mark_dirty(0);
    let b = CacheEntry::new(2, 6);
    let c = CacheEntry::new(3, 7);
    let cand = find_oldest_clean(&[a, b, c]).unwrap();
    assert_eq!(cand.lba, 2);
    assert_eq!(cand.pool_index, 6);
    assert!(!cand.needs_flush);
    assert!(find_oldest_clean(&[a]).is_none());
}
