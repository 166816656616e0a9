//! A handle naming one block of the memory pool: its start address and size.
//! The pool owns the memory; the handle carries no data of its own.

use vstd::prelude::*;

verus! {

/// The address and size of one block inside the memory pool.
#[derive(Debug, Clone, Copy)]
pub struct BlockBuffer {
    ptr: usize,
    size: usize,
}

impl BlockBuffer {
    /// A handle for the `size` bytes at address `ptr`.
    pub(crate) fn from_raw(ptr: usize, size: usize) -> (b: Self)
        ensures
            b.address() == ptr,
            b.spec_len() == size,
    {
        BlockBuffer { ptr, size }
    }

    /// The start address of the block.
    pub closed spec fn address(&self) -> usize {
        self.ptr
    }

    /// The size of the block in bytes.
    pub closed spec fn spec_len(&self) -> usize {
        self.size
    }

    /// The start address of the block.
    pub fn as_ptr(&self) -> (p: usize)
        ensures
            p == self.address(),
    {
        self.ptr
    }

    /// The start address of the block, for writing through it.
    pub fn as_mut_ptr(&mut self) -> (p: usize)
        ensures
            p == old(self).address(),
            *final(self) == *old(self),
    {
        self.ptr
    }

    /// Block size in bytes.
    pub fn len(&self) -> (n: usize)
        ensures
            n == self.spec_len(),
    {
        self.size
    }

    /// `true` for a zero-sized block (never for a block of a pool).
    pub fn is_empty(&self) -> (b: bool)
        ensures
            b == (self.spec_len() == 0),
    {
        self.size == 0
    }
}

} // verus!
