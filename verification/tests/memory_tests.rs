use asm_cache_inject::error::CacheError;
use asm_cache_inject::memory::aligned_allocator::{AlignedBuffer, PAGE_ALIGNMENT};
use asm_cache_inject::memory::pool::MemoryPool;

const BLOCK_SIZE: usize = 4096;
const POOL_SIZE: usize = BLOCK_SIZE * 16; // 16 blocks

#[test]
fn allocates_aligned_buffer() {
    let buf = AlignedBuffer::new(PAGE_ALIGNMENT).expect("allocation failed");
    assert_eq!(buf.len(), PAGE_ALIGNMENT);
    assert_eq!(buf.as_ptr() as usize % PAGE_ALIGNMENT, 0);
}

#[test]
fn buffer_is_zero_initialised() {
    let buf = AlignedBuffer::new(PAGE_ALIGNMENT).expect("allocation failed");
    assert!(buf.as_ref().iter().all(|&b| b == 0));
}

#[test]
fn rejects_zero_size() {
    assert!(AlignedBuffer::new(0).is_err());
}

#[test]
fn rejects_misaligned_size() {
    assert!(AlignedBuffer::new(1000).is_err());
}

#[test]
fn large_allocation() {
    // 1 MiB — should succeed on any modern system.
    let buf = AlignedBuffer::new(1024 * 1024).expect("allocation failed");
    assert_eq!(buf.len(), 1024 * 1024);
    assert_eq!(buf.as_ptr() as usize % PAGE_ALIGNMENT, 0);
}

#[test]
fn allocation_errors_carry_reasons() {
    match AlignedBuffer::new(0) {
        Err(CacheError::Allocation { reason }) => assert_eq!(reason, "requested size is zero"),
        other => panic!("unexpected {:?}", other.map(|b| b.len())),
    }
    match AlignedBuffer::new(1000) {
        Err(CacheError::Allocation { reason }) => assert_eq!(reason, "size (1000) must be a multiple of 4096"),
        other => panic!("unexpected {:?}", other.map(|b| b.len())),
    }
    match AlignedBuffer::new(usize::MAX - 4095) {
        Err(CacheError::Allocation { reason }) => {
            assert_eq!(reason, "invalid layout: invalid parameters to Layout::from_size_align")
        }
        other => panic!("unexpected {:?}", other.map(|b| b.len())),
    }
}

#[test]
fn buffer_and_pool_addresses_are_non_null() {
    let buf = AlignedBuffer::new(1024 * 1024).expect("allocation failed");
    assert_ne!(buf.as_ptr(), 0);
    let pool = MemoryPool::new(BLOCK_SIZE * 2, BLOCK_SIZE).unwrap();
    assert_ne!(pool.base_ptr(), 0);
    assert_ne!(pool.get_block(0).as_ptr(), 0);
}

#[test]
fn clear_block_zeroes_only_that_block() {
    let mut pool = MemoryPool::new(BLOCK_SIZE * 2, BLOCK_SIZE).unwrap();
    pool.write_block(0, &vec![7u8; BLOCK_SIZE]);
    pool.write_block(1, &vec![9u8; BLOCK_SIZE]);
    pool.clear_block(1);
    assert!(pool.read_block(1).iter().all(|&b| b == 0));
    assert!(pool.read_block(0).iter().all(|&b| b == 7));
}

#[test]
fn copy_in_overwrites_only_the_range() {
    let mut buf = AlignedBuffer::new(4096).unwrap();
    buf.copy_in(10, &[1, 2, 3]);
    let bytes = buf.as_ref();
    assert_eq!(&bytes[9..14], &[0, 1, 2, 3, 0]);
    assert_eq!(buf.as_mut_ptr() % PAGE_ALIGNMENT, 0);
}

#[test]
fn basic_allocate_and_deallocate() {
    let mut pool = MemoryPool::new(POOL_SIZE, BLOCK_SIZE).unwrap();
    assert_eq!(pool.capacity(), 16);
    assert_eq!(pool.free_count(), 16);

    let (idx, _buf) = pool.allocate().unwrap();
    assert_eq!(pool.free_count(), 15);

    pool.deallocate(idx);
    assert_eq!(pool.free_count(), 16);
}

#[test]
fn exhaust_pool() {
    let mut pool = MemoryPool::new(POOL_SIZE, BLOCK_SIZE).unwrap();
    let mut indices = Vec::new();

    for _ in 0..16 {
        let (idx, _) = pool.allocate().unwrap();
        indices.push(idx);
    }

    // 17th allocation should fail.
    assert!(pool.allocate().is_err());

    // Free one and allocate again.
    pool.deallocate(indices.pop().unwrap());
    assert!(pool.allocate().is_ok());
}

#[test]
fn block_buffers_are_page_aligned() {
    let mut pool = MemoryPool::new(POOL_SIZE, BLOCK_SIZE).unwrap();
    for _ in 0..16 {
        let (_, buf) = pool.allocate().unwrap();
        assert_eq!(buf.as_ptr() as usize % PAGE_ALIGNMENT, 0);
    }
}

#[test]
fn rejects_bad_parameters() {
    assert!(MemoryPool::new(0, BLOCK_SIZE).is_err());
    assert!(MemoryPool::new(POOL_SIZE, 0).is_err());
    assert!(MemoryPool::new(POOL_SIZE, 1000).is_err()); // not aligned
    assert!(MemoryPool::new(5000, BLOCK_SIZE).is_err()); // not multiple
}

#[test]
fn pool_hands_out_highest_block_first_and_reports_exhaustion() {
    let mut pool = MemoryPool::new(BLOCK_SIZE * 3, BLOCK_SIZE).unwrap();
    let (a, ba) = pool.allocate().unwrap();
    let (b, bb) = pool.allocate().unwrap();
    let (c, _) = pool.allocate().unwrap();
    assert_eq!((a, b, c), (2, 1, 0));
    assert_eq!(ba.as_ptr() - pool.base_ptr(), 2 * BLOCK_SIZE);
    assert_eq!(bb.len(), BLOCK_SIZE);
    assert!(!bb.is_empty());
    assert_eq!(pool.used_count(), 3);
    match pool.allocate() {
        Err(CacheError::PoolExhausted { in_use, capacity }) => {
            assert_eq!(in_use, 3);
            assert_eq!(capacity, 3);
        }
        _ => panic!("expected PoolExhausted"),
    }
    pool.deallocate(b);
    assert_eq!(pool.allocate().unwrap().0, 1);
}

#[test]
fn pool_block_data_round_trip() {
    let mut pool = MemoryPool::new(BLOCK_SIZE * 2, BLOCK_SIZE).unwrap();
    let data: Vec<u8> = (0..BLOCK_SIZE).map(|i| (i % 251) as u8).collect();
    pool.write_block(1, &data);
    assert_eq!(pool.read_block(1), data);
    assert!(pool.read_block(0).iter().all(|&b| b == 0));
    assert_eq!(pool.get_block(1).as_ptr(), pool.base_ptr() + BLOCK_SIZE);
}

#[test]
fn pool_parameter_messages() {
    match MemoryPool::new(POOL_SIZE, 1000) {
        Err(CacheError::Config { message }) => {
            assert_eq!(message, "block_size (1000) must be a non-zero multiple of 4096")
        }
        _ => panic!("expected Config"),
    }
    match MemoryPool::new(5000, BLOCK_SIZE) {
        Err(CacheError::Config { message }) => {
            assert_eq!(message, "total_size (5000) must be a non-zero multiple of block_size (4096)")
        }
        _ => panic!("expected Config"),
    }
}
