use asm_cache_inject::engine::cache_engine::CacheEngine;
use asm_cache_inject::engine::config::CacheConfig;
use asm_cache_inject::engine::read_path::ReadStep;
use asm_cache_inject::engine::write_path::WriteStep;
use asm_cache_inject::error::CacheError;
use asm_cache_inject::io::device::BlockDevice;
use asm_cache_inject::io::device_info::DeviceInfo;

const BS: usize = 4096;

fn engine(blocks_on_device: u64, read_only: bool) -> CacheEngine {
    let mut cfg = CacheConfig::new("/dev/test");
    cfg.cache_size_mb = 1; // 256 pool blocks
    cfg.read_only = read_only;
    let info = DeviceInfo::from_geometry(
        "/dev/test".to_string(),
        blocks_on_device * BS as u64,
        512,
        "model".to_string(),
    );
    let dev = BlockDevice::from_parts(-1, "/dev/test".to_string(), info);
    CacheEngine::new(cfg, dev).unwrap()
}

fn block(fill: u8) -> Vec<u8> {
    vec![fill; BS]
}

fn write_done(e: &mut CacheEngine, lba: u64, data: &[u8]) -> bool {
    match e.begin_write(lba, data).unwrap() {
        WriteStep::Done(outcome) => outcome.result.was_update,
        WriteStep::FlushVictim { .. } => panic!("unexpected victim"),
    }
}

#[test]
fn new_engine_is_empty() {
    let e = engine(1000, false);
    assert_eq!(e.block_size(), BS);
    assert_eq!(e.max_lba(), 1000);
    assert_eq!(e.pool().capacity(), 256);
    assert_eq!(e.pool().free_count(), 256);
    assert!(e.table().is_empty());
    assert!(e.dirty_blocks().is_empty());
    assert_eq!(e.device().fd(), -1);
    assert_eq!(e.device().path(), "/dev/test");
    assert_eq!(e.config().cache_size_mb, 1);
    assert_eq!(e.flush_schedule().interval_secs, 5);
}

#[test]
fn engine_refuses_invalid_config() {
    let mut cfg = CacheConfig::new("/dev/test");
    cfg.block_size = 1000;
    let info = DeviceInfo::from_geometry("/dev/test".to_string(), 1 << 20, 512, String::new());
    let dev = BlockDevice::from_parts(-1, "/dev/test".to_string(), info);
    assert!(matches!(CacheEngine::new(cfg, dev), Err(CacheError::Config { .. })));
}

#[test]
fn read_after_write_hits() {
    let mut e = engine(1000, false);
    assert!(!write_done(&mut e, 5, &block(7)));
    let mut buf = block(0);
    match e.begin_read(5, &mut buf).unwrap() {
        ReadStep::Hit => {}
        other => panic!("expected hit, got {:?}", other),
    }
    assert_eq!(buf, block(7));
    assert_eq!(e.cached_block(5), Some(block(7)));
    assert_eq!(e.dirty_blocks().len(), 1);
    assert!(write_done(&mut e, 5, &block(9)));
    assert_eq!(e.cached_block(5), Some(block(9)));
}

#[test]
fn read_miss_fetches_then_hits() {
    let mut e = engine(1000, false);
    let mut buf = block(0);
    let index = match e.begin_read(42, &mut buf).unwrap() {
        ReadStep::Fetch { pool_index } => pool_index,
        other => panic!("expected fetch, got {:?}", other),
    };
    assert_eq!(index, 255);
    let res = e.finish_read(42, &block(3), &mut buf).unwrap();
    assert!(!res.cache_hit);
    assert_eq!(buf, block(3));
    assert!(e.dirty_blocks().is_empty());
    let mut again = block(0);
    assert!(matches!(e.begin_read(42, &mut again).unwrap(), ReadStep::Hit));
    assert_eq!(again, block(3));
    assert_eq!(e.table().get(42).unwrap().access_count, 2);
}

#[test]
fn finish_without_reservation_is_internal_error() {
    let mut e = engine(1000, false);
    let mut buf = block(0);
    match e.finish_read(1, &block(1), &mut buf) {
        Err(CacheError::Internal { message }) => assert_eq!(message, "no pool block is reserved for this miss"),
        other => panic!("unexpected {:?}", other),
    }
    assert!(matches!(e.finish_write(1, &block(1)), Err(CacheError::Internal { .. })));
}

#[test]
fn out_of_range_and_read_only() {
    let mut e = engine(10, false);
    let mut buf = block(0);
    match e.begin_read(10, &mut buf) {
        Err(CacheError::LbaOutOfRange { lba, max_lba }) => {
            assert_eq!(lba, 10);
            assert_eq!(max_lba, 10);
        }
        other => panic!("unexpected {:?}", other),
    }
    assert!(matches!(e.begin_write(11, &block(1)), Err(CacheError::LbaOutOfRange { .. })));
    let mut ro = engine(10, true);
    match ro.begin_write(1, &block(1)) {
        Err(CacheError::Config { message }) => assert_eq!(message, "write rejected: engine is in read-only mode"),
        other => panic!("unexpected {:?}", other),
    }
}

#[test]
fn full_pool_of_dirty_blocks_asks_for_write_back() {
    let mut e = engine(1000, false);
    for lba in 0..256u64 {
        write_done(&mut e, lba, &block(lba as u8));
    }
    assert_eq!(e.pool().free_count(), 0);
    let (candidate, data) = match e.begin_write(300, &block(1)).unwrap() {
        WriteStep::FlushVictim { candidate, data } => (candidate, data),
        WriteStep::Done(_) => panic!("expected a victim"),
    };
    assert_eq!(candidate.lba, 0);
    assert!(candidate.needs_flush);
    assert_eq!(data, block(0));
    let index = e.reclaim(candidate).unwrap();
    assert_eq!(index, candidate.pool_index);
    assert_eq!(e.cached_block(0), None);
    let outcome = e.finish_write(300, &block(1)).unwrap();
    assert!(!outcome.result.was_update);
    assert!(outcome.wake_flusher);
    assert_eq!(e.cached_block(300), Some(block(1)));
    assert!(matches!(e.reclaim(candidate), Err(CacheError::Internal { .. })));
}

#[test]
fn clean_lru_block_is_evicted_silently() {
    let mut e = engine(1000, false);
    for lba in 0..256u64 {
        write_done(&mut e, lba, &block(1));
    }
    e.mark_flushed(0);
    assert_eq!(e.dirty_blocks().len(), 255);
    assert!(!write_done(&mut e, 500, &block(2)));
    assert_eq!(e.cached_block(0), None);
    assert_eq!(e.cached_block(500), Some(block(2)));
}

#[test]
fn write_wakes_flusher_above_watermark() {
    let mut e = engine(1000, false);
    match e.begin_write(1, &block(1)).unwrap() {
        // one dirty entry out of one: 100% > 75%
        WriteStep::Done(outcome) => assert!(outcome.wake_flusher),
        _ => panic!("expected done"),
    }
    let mut buf = block(0);
    if let ReadStep::Fetch { .. } = e.begin_read(2, &mut buf).unwrap() {
        e.finish_read(2, &block(0), &mut buf).unwrap();
    }
    if let ReadStep::Fetch { .. } = e.begin_read(3, &mut buf).unwrap() {
        e.finish_read(3, &block(0), &mut buf).unwrap();
    }
    if let ReadStep::Fetch { .. } = e.begin_read(4, &mut buf).unwrap() {
        e.finish_read(4, &block(0), &mut buf).unwrap();
    }
    // two dirty of five: 40%
    match e.begin_write(5, &block(5)).unwrap() {
        WriteStep::Done(outcome) => assert!(!outcome.wake_flusher),
        _ => panic!("expected done"),
    }
}
