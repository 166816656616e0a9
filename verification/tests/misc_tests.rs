use asm_cache_inject::bench::random::{generate_random_lbas, RandomResult, BENCH_SEED};
use asm_cache_inject::bench::runner::{plan_benchmarks, BenchConfig, BenchMode, BenchPhase};
use asm_cache_inject::bench::sequential::SequentialResult;
use asm_cache_inject::cli::emit::{error_notes, get_error_code, get_error_path, NoteKind};
use asm_cache_inject::copy_strategy::{detect_strategy, CopyStrategy};
use asm_cache_inject::error::{CacheError, IoErrorKind, IoFailure};
use asm_cache_inject::io::device_info::DeviceInfo;
use asm_cache_inject::io::transfer::{lba_offset, read_progress, write_progress};

#[test]
fn error_codes_and_locations() {
    let cfg = CacheError::Config { message: "x".to_string() };
    assert_eq!(get_error_code(&cfg), "E0001");
    assert_eq!(get_error_path(&cfg), "config");
    let nf = CacheError::DeviceNotFound { path: "/dev/nope".to_string() };
    assert_eq!(get_error_code(&nf), "E0002");
    assert_eq!(get_error_path(&nf), "/dev/nope");
    let pd = CacheError::PermissionDenied { detail: "d".to_string() };
    assert_eq!(get_error_code(&pd), "E0012");
    assert_eq!(get_error_path(&pd), "device");
    let oor = CacheError::LbaOutOfRange { lba: 9, max_lba: 3 };
    assert_eq!(get_error_code(&oor), "E0011");
    assert_eq!(get_error_path(&oor), "io");
    let ex = CacheError::PoolExhausted { in_use: 1, capacity: 1 };
    assert_eq!(get_error_code(&ex), "E0006");
    assert_eq!(get_error_path(&ex), "cache");
}

#[test]
fn error_messages() {
    let e = CacheError::config("cache_size_mb must be > 0");
    assert_eq!(e.to_string(), "Configuration error: cache_size_mb must be > 0");
    assert_eq!(get_error_code(&e), "E0001");
    assert_eq!(
        CacheError::LbaOutOfRange { lba: 12, max_lba: 10 }.to_string(),
        "LBA 12 is out of range (device has 10 blocks)"
    );
    assert_eq!(
        CacheError::PoolExhausted { in_use: 4, capacity: 4 }.to_string(),
        "Cache pool exhausted (4 of 4 blocks in use)"
    );
    assert_eq!(
        CacheError::Alignment { expected: 4096, actual: 17 }.to_string(),
        "Alignment violation: expected 4096-byte alignment, got offset 17"
    );
    let io = CacheError::Io {
        operation: "pread".to_string(),
        source: IoFailure { kind: IoErrorKind::Other, message: "bad".to_string() },
    };
    assert_eq!(io.to_string(), "I/O error on pread: bad");
    assert_eq!(
        CacheError::PermissionDenied { detail: "open: denied".to_string() }.to_string(),
        "Permission denied: open: denied. Try running with sudo or CAP_SYS_RAWIO."
    );
}

#[test]
fn error_notes_give_note_then_help() {
    let notes = error_notes(&CacheError::NotBlockDevice { path: "/tmp/f".to_string() });
    assert_eq!(notes.len(), 2);
    assert_eq!(notes[0].kind, NoteKind::Note);
    assert_eq!(notes[0].text, "target path exists but is not a hardware block device");
    assert_eq!(notes[1].kind, NoteKind::Help);
    let one = error_notes(&CacheError::Internal { message: "m".to_string() });
    assert_eq!(one.len(), 1);
    assert_eq!(one[0].text, "this is a bug in the cache engine; please report it");
}

#[test]
fn io_error_with_permission_denied_becomes_permission_error() {
    let e = CacheError::io(
        "open",
        IoFailure { kind: IoErrorKind::PermissionDenied, message: "Permission denied".to_string() },
    );
    match e {
        CacheError::PermissionDenied { detail } => assert_eq!(detail, "open: Permission denied"),
        other => panic!("unexpected {:?}", other),
    }
    let e = CacheError::io("fsync", IoFailure { kind: IoErrorKind::Other, message: "bad".to_string() });
    match e {
        CacheError::Io { operation, source } => {
            assert_eq!(operation, "fsync");
            assert_eq!(source.kind, IoErrorKind::Other);
        }
        other => panic!("unexpected {:?}", other),
    }
}

#[test]
fn transfer_progress_and_short_transfers() {
    assert_eq!(lba_offset(3, 4096), 12288);
    assert_eq!(read_progress(0, 0, 4096, 4096).unwrap(), 4096);
    assert_eq!(write_progress(0, 100, 4096, 10).unwrap(), 110);
    match read_progress(8192, 10, 4096, 0) {
        Err(CacheError::Io { operation, source }) => {
            assert_eq!(operation, "pread");
            assert_eq!(source.kind, IoErrorKind::UnexpectedEof);
            assert_eq!(source.message, "unexpected EOF at offset 8202 (read 10 of 4096 bytes)");
        }
        other => panic!("unexpected {:?}", other),
    }
    match write_progress(0, 0, 512, 0) {
        Err(CacheError::Io { operation, source }) => {
            assert_eq!(operation, "pwrite");
            assert_eq!(source.kind, IoErrorKind::WriteZero);
            assert_eq!(source.message, "zero-length write at offset 0 (wrote 0 of 512 bytes)");
        }
        other => panic!("unexpected {:?}", other),
    }
}

#[test]
fn device_geometry() {
    let info = DeviceInfo::from_geometry("/dev/x".to_string(), 1 << 30, 512, "disk".to_string());
    assert_eq!(info.sector_count, (1 << 30) / 512);
    assert_eq!(info.max_lba(4096), (1 << 30) / 4096);
    assert_eq!(info.max_lba(0), 0);
    let odd = DeviceInfo::from_geometry("/dev/y".to_string(), 10000, 0, String::new());
    assert_eq!(odd.sector_count, 0);
    assert_eq!(odd.max_lba(4096), 2);
}

#[test]
fn copy_strategy_by_target() {
    assert_eq!(detect_strategy(true), CopyStrategy::NonTemporal);
    assert_eq!(detect_strategy(false), CopyStrategy::Generic);
    assert_eq!(CopyStrategy::Erms.description(), "REP MOVSB (Enhanced REP MOVSB)");
    assert_eq!(CopyStrategy::NonTemporal.description(), "MOVNTDQ (non-temporal streaming)");
    assert_eq!(CopyStrategy::Generic.description(), "generic memcpy (fallback)");
}

#[test]
fn bench_mode_names() {
    assert_eq!(BenchMode::parse("sequential"), Ok(BenchMode::Sequential));
    assert_eq!(BenchMode::parse("SEQ"), Ok(BenchMode::Sequential));
    assert_eq!(BenchMode::parse("Random"), Ok(BenchMode::Random));
    assert_eq!(BenchMode::parse("rand"), Ok(BenchMode::Random));
    assert_eq!(BenchMode::parse("ALL"), Ok(BenchMode::All));
    assert_eq!(BenchMode::parse("seqq"), Err("unknown bench mode: seqq".to_string()));
    assert_eq!("all".parse::<BenchMode>(), Ok(BenchMode::All));
}

#[test]
fn bench_plan_caps_count_and_lists_phases() {
    let cfg = BenchConfig {
        device_path: "/dev/loop1".to_string(),
        mode: BenchMode::All,
        block_count: 5000,
        cache_size_mb: 32,
        include_writes: true,
    };
    let plan = plan_benchmarks(&cfg, 1000);
    assert_eq!(plan.effective_count, 1000);
    assert_eq!(plan.engine_config.cache_size_mb, 32);
    assert_eq!(plan.engine_config.block_size, 4096);
    assert!(!plan.engine_config.read_only);
    assert_eq!(
        plan.phases,
        vec![
            BenchPhase::SequentialRead,
            BenchPhase::SequentialReadWarm,
            BenchPhase::SequentialWrite,
            BenchPhase::RandomRead,
            BenchPhase::RandomReadWarm,
            BenchPhase::RandomWrite,
        ]
    );
    let ro = BenchConfig { mode: BenchMode::Random, include_writes: false, block_count: 10, ..cfg };
    let plan = plan_benchmarks(&ro, 1000);
    assert_eq!(plan.effective_count, 10);
    assert!(plan.engine_config.read_only);
    assert_eq!(plan.phases, vec![BenchPhase::RandomRead, BenchPhase::RandomReadWarm]);
}

#[test]
fn random_lbas_stay_in_range_and_repeat_per_seed() {
    let a = generate_random_lbas(500, 37, BENCH_SEED);
    let b = generate_random_lbas(500, 37, BENCH_SEED);
    assert_eq!(a.len(), 500);
    assert!(a.iter().all(|&l| l < 37));
    assert_eq!(a, b);
    assert!(generate_random_lbas(0, 0, 1).is_empty());
}

#[test]
fn result_byte_totals() {
    let s = SequentialResult {
        operation: "read".to_string(),
        cached: false,
        block_count: 10,
        block_size: 4096,
        elapsed_nanos: 1,
        cache_hits: 0,
        cache_misses: 10,
    };
    assert_eq!(s.total_bytes(), 40960);
    let r = RandomResult {
        operation: "read".to_string(),
        cached: true,
        op_count: 3,
        block_size: 4096,
        lba_range: 100,
        elapsed_nanos: 1,
        cache_hits: 3,
        cache_misses: 0,
    };
    assert_eq!(r.total_bytes(), 12288);
}
