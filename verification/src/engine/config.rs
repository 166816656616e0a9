//! Configuration for the cache engine. All user-facing parameters are
//! collected here and validated before the engine starts.

use vstd::prelude::*;

use crate::error::{CacheError, CacheResult};
use crate::flush::scheduler::{fraction_text, Fraction};
use crate::memory::aligned_allocator::PAGE_ALIGNMENT;
use crate::memory::pool::block_size_message;
use crate::text::{decimal, decimal_text, joined};

verus! {

/// Default cache size in megabytes (256 MiB).
pub const DEFAULT_CACHE_SIZE_MB: usize = 256;

/// Default block size in bytes (one OS page).
pub const DEFAULT_BLOCK_SIZE: usize = 4096;

/// Default flush interval in seconds.
pub const DEFAULT_FLUSH_INTERVAL_SECS: u64 = 5;

/// Bytes in a mebibyte.
pub const MIB: usize = 1048576;

/// Default dirty watermark (3/4).
pub fn default_dirty_watermark() -> (w: Fraction)
    ensures
        w == (Fraction { num: 3, den: 4 }),
{
    Fraction { num: 3, den: 4 }
}

/// Engine configuration.
#[derive(Debug, Clone)]
pub struct CacheConfig {
    /// Path to the target block device (e.g. `/dev/sda`).
    pub device_path: String,
    /// Total RAM to allocate for the cache, in megabytes.
    pub cache_size_mb: usize,
    /// Size of each cache block in bytes; a multiple of [`PAGE_ALIGNMENT`].
    pub block_size: usize,
    /// Interval between periodic flush cycles, in seconds.
    pub flush_interval_secs: u64,
    /// Fraction of dirty blocks that triggers an immediate flush, in `[0, 1]`.
    pub dirty_watermark: Fraction,
    /// If `true`, the device is opened read-only and writes are rejected.
    pub read_only: bool,
}

/// The message for a cache size that is not a whole number of blocks.
pub open spec fn cache_size_message(mb: nat, bytes: nat, bs: nat) -> Seq<char> {
    "cache_size ("@ + decimal(mb) + " MiB = "@ + decimal(bytes) + " bytes) must be a multiple of block_size ("@
        + decimal(bs) + ")"@
}

/// The message for a watermark outside `[0, 1]`.
pub open spec fn watermark_message(w: Fraction) -> Seq<char> {
    "dirty_watermark ("@ + fraction_text(w) + ") must be in [0.0, 1.0]"@
}

/// The cache size in bytes fits in a `usize`.
pub open spec fn cache_bytes_fit(c: CacheConfig) -> bool {
    c.cache_size_mb * MIB <= usize::MAX
}

/// The first problem that validation finds in `c`, if any, as its message.
pub open spec fn config_problem(c: CacheConfig) -> Option<Seq<char>> {
    if c.device_path@.len() == 0 {
        Some("device_path must not be empty"@)
    } else if c.cache_size_mb == 0 {
        Some("cache_size_mb must be > 0"@)
    } else if c.block_size == 0 || c.block_size % PAGE_ALIGNMENT != 0 {
        Some(block_size_message(c.block_size as nat))
    } else if (c.cache_size_mb * MIB) % (c.block_size as int) != 0 {
        Some(cache_size_message(c.cache_size_mb as nat, (c.cache_size_mb * MIB) as nat, c.block_size as nat))
    } else if !c.dirty_watermark.in_unit_interval() {
        Some(watermark_message(c.dirty_watermark))
    } else if c.flush_interval_secs == 0 {
        Some("flush_interval_secs must be > 0"@)
    } else {
        None
    }
}

/// Validation reaches the size arithmetic only when the path, the cache size
/// and the block size have passed; there the cache size in bytes must fit.
pub open spec fn validation_fits(c: CacheConfig) -> bool {
    (c.device_path@.len() > 0 && c.cache_size_mb != 0 && c.block_size != 0 && c.block_size % PAGE_ALIGNMENT
        == 0) ==> cache_bytes_fit(c)
}

impl CacheConfig {
    /// A config for the given device with the defaults: 256 MiB of cache,
    /// 4096-byte blocks, a flush every 5 s, watermark 3/4, read-write.
    pub fn new(device_path: &str) -> (c: Self)
        ensures
            c.device_path@ == device_path@,
            c.cache_size_mb == DEFAULT_CACHE_SIZE_MB,
            c.block_size == DEFAULT_BLOCK_SIZE,
            c.flush_interval_secs == DEFAULT_FLUSH_INTERVAL_SECS,
            c.dirty_watermark == (Fraction { num: 3, den: 4 }),
            !c.read_only,
    {
        CacheConfig {
            device_path: device_path.to_owned(),
            cache_size_mb: DEFAULT_CACHE_SIZE_MB,
            block_size: DEFAULT_BLOCK_SIZE,
            flush_interval_secs: DEFAULT_FLUSH_INTERVAL_SECS,
            dirty_watermark: default_dirty_watermark(),
            read_only: false,
        }
    }

    /// Total cache size in bytes.
    pub fn cache_size_bytes(&self) -> (n: usize)
        requires
            cache_bytes_fit(*self),
        ensures
            n == self.cache_size_mb * MIB,
    {
        self.cache_size_mb * MIB
    }

    /// Number of blocks that fit in the cache.
    pub fn block_count(&self) -> (n: usize)
        requires
            cache_bytes_fit(*self),
            self.block_size > 0,
        ensures
            n == (self.cache_size_mb * MIB) / (self.block_size as int),
    {
        self.cache_size_bytes() / self.block_size
    }

    /// Check every parameter: `Ok(())` exactly when no problem is found,
    /// else a `Config` error whose message names the first problem.
    pub fn validate(&self) -> (r: CacheResult<()>)
        requires
            validation_fits(*self),
        ensures
            config_problem(*self) is None ==> r is Ok,
            config_problem(*self) matches Some(msg) ==> (r matches Err(CacheError::Config { message })
                && message@ == msg),
    {
        if self.device_path.as_str().is_empty() {
            return Err(CacheError::config("device_path must not be empty"));
        }
        if self.cache_size_mb == 0 {
            return Err(CacheError::config("cache_size_mb must be > 0"));
        }
        if self.block_size == 0 || self.block_size % PAGE_ALIGNMENT != 0 {
            let n = decimal_text(self.block_size as u64);
            let head = joined("block_size (", n.as_str());
            let message = joined(head.as_str(), ") must be a non-zero multiple of 4096");
            return Err(CacheError::Config { message });
        }
        let bytes = self.cache_size_bytes();
        if bytes % self.block_size != 0 {
            let mb = decimal_text(self.cache_size_mb as u64);
            let by = decimal_text(bytes as u64);
            let bs = decimal_text(self.block_size as u64);
            let m1 = joined("cache_size (", mb.as_str());
            let m2 = joined(m1.as_str(), " MiB = ");
            let m3 = joined(m2.as_str(), by.as_str());
            let m4 = joined(m3.as_str(), " bytes) must be a multiple of block_size (");
            let m5 = joined(m4.as_str(), bs.as_str());
            let message = joined(m5.as_str(), ")");
            return Err(CacheError::Config { message });
        }
        if !self.dirty_watermark.is_unit() {
            let w = self.dirty_watermark.text();
            let m1 = joined("dirty_watermark (", w.as_str());
            let message = joined(m1.as_str(), ") must be in [0.0, 1.0]");
            return Err(CacheError::Config { message });
        }
        if self.flush_interval_secs == 0 {
            return Err(CacheError::config("flush_interval_secs must be > 0"));
        }
        Ok(())
    }
}

/// The default configuration, on any device path, passes validation.
pub proof fn law_default_config_valid(c: CacheConfig)
    requires
        c.device_path@.len() > 0,
        c.cache_size_mb == DEFAULT_CACHE_SIZE_MB,
        c.block_size == DEFAULT_BLOCK_SIZE,
        c.flush_interval_secs == DEFAULT_FLUSH_INTERVAL_SECS,
        c.dirty_watermark == (Fraction { num: 3, den: 4 }),
    ensures
        validation_fits(c),
        config_problem(c) is None,
{
}

} // verus!
