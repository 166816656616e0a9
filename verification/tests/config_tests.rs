use asm_cache_inject::cli::args::{BenchArgs, CacheArgs};
use asm_cache_inject::cli::commands::{bench_config_from_args, cache_config_from_args};
use asm_cache_inject::engine::config::{default_dirty_watermark, CacheConfig, MIB};
use asm_cache_inject::error::CacheError;
use asm_cache_inject::flush::scheduler::{FlushSchedule, Fraction};
use asm_cache_inject::flush::sync::{should_exit_after_cycle, FlushSignal};

fn config_message(cfg: &CacheConfig) -> String {
    match cfg.validate() {
        Err(CacheError::Config { message }) => message,
        other => panic!("expected a Config error, got {:?}", other),
    }
}

#[test]
fn valid_config() {
    let cfg = CacheConfig::new("/dev/sda");
    assert!(cfg.validate().is_ok());
    assert_eq!(cfg.block_count(), 65536); // 256 MiB / 4096
}

#[test]
fn rejects_zero_cache_size() {
    let mut cfg = CacheConfig::new("/dev/sda");
    cfg.cache_size_mb = 0;
    assert!(cfg.validate().is_err());
}

#[test]
fn rejects_bad_block_size() {
    let mut cfg = CacheConfig::new("/dev/sda");
    cfg.block_size = 1000;
    assert!(cfg.validate().is_err());
}

#[test]
fn rejects_bad_watermark() {
    let mut cfg = CacheConfig::new("/dev/sda");
    // 1.5
    cfg.dirty_watermark = Fraction { num: 3, den: 2 };
    assert!(cfg.validate().is_err());
}

#[test]
fn config_defaults_and_sizes() {
    let cfg = CacheConfig::new("/dev/sdb");
    assert_eq!(cfg.device_path, "/dev/sdb");
    assert_eq!(cfg.cache_size_mb, 256);
    assert_eq!(cfg.block_size, 4096);
    assert_eq!(cfg.flush_interval_secs, 5);
    assert_eq!(cfg.dirty_watermark, Fraction { num: 3, den: 4 });
    assert_eq!(default_dirty_watermark(), Fraction { num: 3, den: 4 });
    assert!(!cfg.read_only);
    assert_eq!(cfg.cache_size_bytes(), 256 * MIB);
}

#[test]
fn config_messages_name_the_problem() {
    let mut cfg = CacheConfig::new("");
    assert_eq!(config_message(&cfg), "device_path must not be empty");
    cfg = CacheConfig::new("/dev/sda");
    cfg.cache_size_mb = 0;
    assert_eq!(config_message(&cfg), "cache_size_mb must be > 0");
    cfg = CacheConfig::new("/dev/sda");
    cfg.block_size = 0;
    assert_eq!(config_message(&cfg), "block_size (0) must be a non-zero multiple of 4096");
    cfg = CacheConfig::new("/dev/sda");
    cfg.cache_size_mb = 1;
    cfg.block_size = 4096 * 3;
    assert_eq!(
        config_message(&cfg),
        "cache_size (1 MiB = 1048576 bytes) must be a multiple of block_size (12288)"
    );
    cfg = CacheConfig::new("/dev/sda");
    cfg.dirty_watermark = Fraction { num: 1, den: 0 };
    assert_eq!(config_message(&cfg), "dirty_watermark (1/0) must be in [0.0, 1.0]");
    cfg.dirty_watermark = Fraction { num: 15, den: 10 };
    assert_eq!(config_message(&cfg), "dirty_watermark (1.5) must be in [0.0, 1.0]");
    cfg = CacheConfig::new("/dev/sda");
    cfg.flush_interval_secs = 0;
    assert_eq!(config_message(&cfg), "flush_interval_secs must be > 0");
}

#[test]
fn watermark_bounds_are_accepted() {
    let mut cfg = CacheConfig::new("/dev/sda");
    cfg.dirty_watermark = Fraction { num: 0, den: 1 };
    assert!(cfg.validate().is_ok());
    cfg.dirty_watermark = Fraction { num: 1, den: 1 };
    assert!(cfg.validate().is_ok());
}

#[test]
fn watermark_triggers_strictly_above_threshold() {
    let s = FlushSchedule::new(5, Fraction { num: 3, den: 4 });
    assert!(!s.should_flush_immediately(0, 0));
    assert!(!s.should_flush_immediately(75, 100));
    assert!(s.should_flush_immediately(76, 100));
    assert!(s.should_flush_immediately(4, 4));
    let never = FlushSchedule::new(5, Fraction { num: 1, den: 1 });
    assert!(!never.should_flush_immediately(10, 10));
    let always = FlushSchedule::new(5, Fraction { num: 0, den: 1 });
    assert!(always.should_flush_immediately(1, 10));
    assert!(!always.should_flush_immediately(0, 10));
}

#[test]
fn default_schedule_matches_defaults() {
    let d = FlushSchedule::default();
    assert_eq!(d.interval_secs, 5);
    assert_eq!(d.dirty_watermark, Fraction { num: 3, den: 4 });
    let e = FlushSchedule::default_schedule();
    assert_eq!(e.interval_secs, d.interval_secs);
    assert!(Fraction { num: 2, den: 2 }.is_unit());
    assert!(!Fraction { num: 3, den: 2 }.is_unit());
}

#[test]
fn fractions_are_written_like_decimals() {
    assert_eq!(Fraction { num: 75, den: 100 }.text(), "0.75");
    assert_eq!(Fraction { num: 3, den: 4 }.text(), "3/4");
    assert_eq!(Fraction { num: 20, den: 10 }.text(), "2");
    assert_eq!(Fraction { num: 0, den: 1 }.text(), "0");
    assert_eq!(Fraction { num: 105, den: 1000 }.text(), "0.105");
    assert_eq!(Fraction { num: 1, den: 1000 }.text(), "0.001");
    assert_eq!(Fraction { num: 30000000000000004, den: 100000000000000000 }.text(), "0.30000000000000004");
    assert_eq!(Fraction { num: 7, den: 0 }.text(), "7/0");
}

#[test]
fn flusher_exits_on_shutdown_or_stop() {
    assert!(should_exit_after_cycle(Some(FlushSignal::Shutdown), false));
    assert!(!should_exit_after_cycle(Some(FlushSignal::Wake), false));
    assert!(!should_exit_after_cycle(None, false));
    assert!(should_exit_after_cycle(None, true));
    assert!(should_exit_after_cycle(Some(FlushSignal::Wake), true));
}

#[test]
fn cache_args_become_a_config() {
    let args = CacheArgs {
        device: "/dev/loop0".to_string(),
        cache_size: 64,
        block_size: 8192,
        flush_interval: 9,
        dirty_watermark: Fraction { num: 1, den: 2 },
        read_only: true,
    };
    let cfg = cache_config_from_args(&args);
    assert_eq!(cfg.device_path, "/dev/loop0");
    assert_eq!(cfg.cache_size_mb, 64);
    assert_eq!(cfg.block_size, 8192);
    assert_eq!(cfg.flush_interval_secs, 9);
    assert_eq!(cfg.dirty_watermark, Fraction { num: 1, den: 2 });
    assert!(cfg.read_only);
}

#[test]
fn bench_args_parse_the_mode() {
    let mut args = BenchArgs {
        device: "/dev/loop0".to_string(),
        mode: "Rand".to_string(),
        block_count: 100,
        cache_size: 16,
        confirm_write: false,
    };
    let c = bench_config_from_args(&args).unwrap();
    assert_eq!(c.mode, asm_cache_inject::bench::runner::BenchMode::Random);
    assert_eq!(c.block_count, 100);
    assert_eq!(c.cache_size_mb, 16);
    assert!(!c.include_writes);
    args.mode = "sideways".to_string();
    match bench_config_from_args(&args) {
        Err(CacheError::Config { message }) => assert_eq!(message, "unknown bench mode: sideways"),
        other => panic!("unexpected {:?}", other),
    }
}
