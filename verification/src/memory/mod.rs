//! The page-aligned buffer, the fixed-block memory pool and the block handle.

pub mod aligned_allocator;
pub mod block_buffer;
pub mod pool;
