//! Metadata about a block device: total size, sector size and model string,
//! and the LBA range that follows from them.

use vstd::prelude::*;

verus! {

/// Metadata about a block device.
#[derive(Debug, Clone)]
pub struct DeviceInfo {
    /// Canonical path to the device (e.g. `/dev/sda`).
    pub path: String,
    /// Total device size in bytes.
    pub total_bytes: u64,
    /// Logical sector size in bytes (typically 512 or 4096).
    pub sector_size: u64,
    /// Total number of addressable sectors.
    pub sector_count: u64,
    /// Hardware model string, or "unknown" if unavailable.
    pub model: String,
}

/// Number of whole blocks of `block_size` bytes in `total` bytes; zero for a
/// zero block size.
pub open spec fn whole_blocks(total: u64, block_size: u64) -> u64 {
    if block_size == 0 { 0 } else { (total / block_size) as u64 }
}

impl DeviceInfo {
    /// The metadata of a device whose size and sector size have been read;
    /// the sector count is the number of whole sectors (zero for a zero
    /// sector size).
    pub fn from_geometry(path: String, total_bytes: u64, sector_size: u64, model: String) -> (d: Self)
        ensures
            d.path == path,
            d.total_bytes == total_bytes,
            d.sector_size == sector_size,
            d.sector_count == whole_blocks(total_bytes, sector_size),
            d.model == model,
    {
        let sector_count = match total_bytes.checked_div(sector_size) {
            Some(n) => n,
            None => 0,
        };
        DeviceInfo { path, total_bytes, sector_size, sector_count, model }
    }

    /// The number of whole blocks of `block_size` bytes on the device: every
    /// addressable LBA is below it. Zero for a zero block size.
    pub fn max_lba(&self, block_size: u64) -> (n: u64)
        ensures
            n == whole_blocks(self.total_bytes, block_size),
    {
        if block_size == 0 {
            return 0;
        }
        self.total_bytes / block_size
    }
}

} // verus!
