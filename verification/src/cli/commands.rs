//! From parsed arguments to the configurations that the commands run with.

use vstd::prelude::*;

use super::args::{BenchArgs, CacheArgs};
use crate::bench::runner::{mode_named, BenchConfig, BenchMode};
use crate::engine::config::CacheConfig;
use crate::error::{CacheError, CacheResult};

verus! {

/// The engine configuration that the `cache` subcommand runs with.
pub fn cache_config_from_args(args: &CacheArgs) -> (c: CacheConfig)
    ensures
        c.device_path@ == args.device@,
        c.cache_size_mb == args.cache_size,
        c.block_size == args.block_size,
        c.flush_interval_secs == args.flush_interval,
        c.dirty_watermark == args.dirty_watermark,
        c.read_only == args.read_only,
{
    CacheConfig {
        device_path: args.device.clone(),
        cache_size_mb: args.cache_size,
        block_size: args.block_size,
        flush_interval_secs: args.flush_interval,
        dirty_watermark: args.dirty_watermark,
        read_only: args.read_only,
    }
}

/// The benchmark configuration that the `bench` subcommand runs with; an
/// unknown mode name is a `Config` error.
pub fn bench_config_from_args(args: &BenchArgs) -> (r: CacheResult<BenchConfig>)
    ensures
        mode_named(args.mode@) is None ==> (r matches Err(CacheError::Config { message })
            && message@ == "unknown bench mode: "@ + args.mode@),
        mode_named(args.mode@) matches Some(m) ==> (r matches Ok(c) && c.mode == m && c.device_path@
            == args.device@ && c.block_count == args.block_count && c.cache_size_mb == args.cache_size
            && c.include_writes == args.confirm_write),
{
    let mode = match BenchMode::parse(args.mode.as_str()) {
        Ok(m) => m,
        Err(e) => {
            return Err(CacheError::Config { message: e });
        },
    };
    Ok(
        BenchConfig {
            device_path: args.device.clone(),
            mode,
            block_count: args.block_count,
            cache_size_mb: args.cache_size,
            include_writes: args.confirm_write,
        },
    )
}

} // verus!
