//! The cache entry, the LBA table and the eviction policy.

pub mod entry;
pub mod lba_table;
pub mod eviction;
