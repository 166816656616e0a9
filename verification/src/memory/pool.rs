//! A fixed-capacity memory pool: one page-aligned region carved into equal
//! blocks, with a free list of the blocks not in use.
//!
//! Blocks are handed out from the end of the free list and returned to its
//! end. Block `i` occupies bytes `i * block_size .. (i + 1) * block_size` of
//! the region, so every block is page-aligned as well.

use vstd::prelude::*;

use super::aligned_allocator::{AlignedBuffer, PAGE_ALIGNMENT};
use super::block_buffer::BlockBuffer;
use crate::error::{CacheError, CacheResult};
use crate::text::{decimal, decimal_text, joined};

verus! {

/// Block `i` of `bs` bytes lies inside a region of `cap` such blocks.
pub proof fn lemma_block_in_region(i: int, cap: int, bs: int)
    requires
        0 <= i < cap,
        0 < bs,
    ensures
        0 <= i * bs,
        i * bs + bs <= cap * bs,
{
    assert(0 <= i * bs) by (nonlinear_arith)
        requires
            0 <= i,
            0 < bs,
    ;
    assert(i * bs + bs <= cap * bs) by (nonlinear_arith)
        requires
            i < cap,
            0 < bs,
    ;
}

/// A multiple of a whole number of pages is a whole number of pages.
pub proof fn lemma_page_multiple(a: int, b: int)
    requires
        0 <= a,
        0 <= b,
        b % (PAGE_ALIGNMENT as int) == 0,
    ensures
        (a * b) % (PAGE_ALIGNMENT as int) == 0,
{
    let k = b / 4096;
    assert(b == 4096 * k);
    assert(a * b == (a * k) * 4096) by (nonlinear_arith)
        requires
            b == 4096 * k,
    ;
    vstd::arithmetic::div_mod::lemma_mod_multiples_basic(a * k, 4096);
}

/// The message for a block size that is zero or not a whole number of pages.
pub open spec fn block_size_message(bs: nat) -> Seq<char> {
    "block_size ("@ + decimal(bs) + ") must be a non-zero multiple of 4096"@
}

/// The message for a total size that is zero or not a whole number of blocks.
pub open spec fn total_size_message(total: nat, bs: nat) -> Seq<char> {
    "total_size ("@ + decimal(total) + ") must be a non-zero multiple of block_size ("@ + decimal(bs)
        + ")"@
}

/// Pre-allocated pool of page-aligned cache blocks.
pub struct MemoryPool {
    backing: AlignedBuffer,
    block_size: usize,
    capacity: usize,
    free_list: Vec<usize>,
}

/// What `allocate` does: the pool `before` becomes `after` and `r` is
/// returned.
pub open spec fn allocate_step(before: MemoryPool, after: MemoryPool, r: CacheResult<(usize, BlockBuffer)>) -> bool {
    &&& after.wf()
    &&& after.spec_capacity() == before.spec_capacity()
    &&& after.spec_block_size() == before.spec_block_size()
    &&& after.base_address() == before.base_address()
    &&& after.data() == before.data()
    &&& before.free().len() == 0 ==> (r matches Err(CacheError::PoolExhausted { in_use, capacity })
        && in_use == before.spec_capacity() && capacity == before.spec_capacity() && after.free()
        == before.free())
    &&& before.free().len() > 0 ==> (r matches Ok((index, b)) && index == before.free().last()
        && after.free() == before.free().drop_last() && b.address() == before.base_address() + index
        * before.spec_block_size() && b.spec_len() == before.spec_block_size())
}

/// What `deallocate` of `index` does: the pool `before` becomes `after`.
pub open spec fn deallocate_step(before: MemoryPool, index: usize, after: MemoryPool) -> bool {
    &&& after.wf()
    &&& after.free() == before.free().push(index)
    &&& after.spec_capacity() == before.spec_capacity()
    &&& after.spec_block_size() == before.spec_block_size()
    &&& after.base_address() == before.base_address()
    &&& after.data() == before.data()
}

impl MemoryPool {
    /// Well-formedness: the region holds exactly `capacity` blocks of a
    /// non-zero whole number of pages, and the free list names only blocks of
    /// the pool.
    pub closed spec fn wf(&self) -> bool {
        &&& self.backing.wf()
        &&& self.block_size > 0
        &&& self.block_size % PAGE_ALIGNMENT == 0
        &&& self.backing.spec_len() == self.capacity * self.block_size
        &&& forall|i: int| 0 <= i < self.free_list@.len() ==> #[trigger] self.free_list@[i] < self.capacity
    }

    /// The indices of the blocks available for allocation; the last one is
    /// handed out next.
    pub closed spec fn free(&self) -> Seq<usize> {
        self.free_list@
    }

    /// Total number of blocks.
    pub closed spec fn spec_capacity(&self) -> nat {
        self.capacity as nat
    }

    /// Size of one block in bytes.
    pub closed spec fn spec_block_size(&self) -> nat {
        self.block_size as nat
    }

    /// The bytes of the whole region.
    pub closed spec fn data(&self) -> Seq<u8> {
        self.backing@
    }

    /// The start address of the region.
    pub closed spec fn base_address(&self) -> int {
        self.backing.address()
    }

    /// The bytes of block `i`.
    pub open spec fn block(&self, i: int) -> Seq<u8> {
        self.data().subrange(i * self.spec_block_size(), i * self.spec_block_size() + self.spec_block_size())
    }

    /// What a well-formed pool guarantees of its sizes and layout.
    pub proof fn lemma_wf_facts(&self)
        requires
            self.wf(),
        ensures
            self.spec_block_size() > 0,
            self.spec_block_size() % (PAGE_ALIGNMENT as nat) == 0,
            self.data().len() == self.spec_capacity() * self.spec_block_size(),
            self.base_address() % (PAGE_ALIGNMENT as int) == 0,
            self.base_address() > 0,
            forall|i: int| 0 <= i < self.free().len() ==> #[trigger] self.free()[i] < self.spec_capacity(),
    {
        self.backing.lemma_layout();
    }

    /// Every block of a well-formed pool has `block_size` bytes.
    pub proof fn lemma_block_len(&self, i: int)
        requires
            self.wf(),
            0 <= i < self.spec_capacity(),
        ensures
            self.block(i).len() == self.spec_block_size(),
    {
        lemma_block_in_region(i, self.capacity as int, self.block_size as int);
        self.backing.lemma_layout();
    }

    /// Create a pool of `total_size` bytes divided into blocks of
    /// `block_size` bytes, all of them free and zero-filled.
    pub fn new(total_size: usize, block_size: usize) -> (r: CacheResult<Self>)
        ensures
            (block_size == 0 || block_size % PAGE_ALIGNMENT != 0) ==> (r matches Err(
                CacheError::Config { message },
            ) && message@ == block_size_message(block_size as nat)),
            block_size != 0 && block_size % PAGE_ALIGNMENT == 0 && (total_size == 0 || total_size
                % block_size != 0) ==> (r matches Err(CacheError::Config { message })
                && message@ == total_size_message(total_size as nat, block_size as nat)),
            block_size != 0 && block_size % PAGE_ALIGNMENT == 0 && total_size != 0 && total_size
                % block_size == 0 && total_size > isize::MAX - (PAGE_ALIGNMENT - 1) ==> (
            r matches Err(CacheError::Allocation { reason })
                && reason@ == "invalid layout: invalid parameters to Layout::from_size_align"@),
            block_size != 0 && block_size % PAGE_ALIGNMENT == 0 && total_size != 0 && total_size
                % block_size == 0 && total_size <= isize::MAX - (PAGE_ALIGNMENT - 1) ==> (
            r matches Ok(p) && p.wf() && p.spec_capacity() == total_size / block_size
                && p.spec_block_size() == block_size && p.free() == Seq::new(
                p.spec_capacity(),
                |i: int| i as usize,
            ) && p.data() == Seq::new(total_size as nat, |i: int| 0u8)),
    {
        if block_size == 0 || block_size % PAGE_ALIGNMENT != 0 {
            let n = decimal_text(block_size as u64);
            let head = joined("block_size (", n.as_str());
            let message = joined(head.as_str(), ") must be a non-zero multiple of 4096");
            return Err(CacheError::Config { message });
        }
        if total_size == 0 || total_size % block_size != 0 {
            let t = decimal_text(total_size as u64);
            let b = decimal_text(block_size as u64);
            let m1 = joined("total_size (", t.as_str());
            let m2 = joined(m1.as_str(), ") must be a non-zero multiple of block_size (");
            let m3 = joined(m2.as_str(), b.as_str());
            let message = joined(m3.as_str(), ")");
            return Err(CacheError::Config { message });
        }
        let capacity = total_size / block_size;
        proof {
            assert(capacity * block_size == total_size) by (nonlinear_arith)
                requires
                    capacity == total_size / block_size,
                    total_size % block_size == 0,
                    block_size > 0,
            ;
            lemma_page_multiple(capacity as int, block_size as int);
        }
        let backing = match AlignedBuffer::new(total_size) {
            Ok(b) => b,
            Err(e) => {
                return Err(e);
            },
        };
        let mut free_list: Vec<usize> = Vec::with_capacity(capacity);
        let mut i: usize = 0;
        while i < capacity
            invariant
                i <= capacity,
                free_list@ == Seq::new(i as nat, |j: int| j as usize),
            decreases capacity - i,
        {
            free_list.push(i);
            i = i + 1;
            proof {
                assert(free_list@ =~= Seq::new(i as nat, |j: int| j as usize));
            }
        }
        let p = MemoryPool { backing, block_size, capacity, free_list };
        proof {
            assert(capacity * block_size == total_size) by (nonlinear_arith)
                requires
                    capacity == total_size / block_size,
                    total_size % block_size == 0,
                    block_size > 0,
            ;
        }
        Ok(p)
    }

    /// The handle for block `index`.
    fn buffer_for_index(&self, index: usize) -> (b: BlockBuffer)
        requires
            self.wf(),
            index < self.spec_capacity(),
        ensures
            b.address() == self.base_address() + index * self.spec_block_size(),
            b.spec_len() == self.spec_block_size(),
            b.address() % PAGE_ALIGNMENT == 0,
            b.address() != 0,
    {
        proof {
            lemma_block_in_region(index as int, self.capacity as int, self.block_size as int);
            lemma_page_multiple(index as int, self.block_size as int);
            self.backing.lemma_layout();
        }
        let base = self.backing.as_ptr();
        let offset = index * self.block_size;
        proof {
            assert((base + offset) % (PAGE_ALIGNMENT as int) == 0);
        }
        BlockBuffer::from_raw(base + offset, self.block_size)
    }

    /// Allocate one block: the last index of the free list, with its handle.
    /// Fails with `PoolExhausted` when no block is free.
    pub fn allocate(&mut self) -> (r: CacheResult<(usize, BlockBuffer)>)
        requires
            old(self).wf(),
        ensures
            allocate_step(*old(self), *final(self), r),
    {
        match self.free_list.pop() {
            None => Err(CacheError::PoolExhausted { in_use: self.capacity, capacity: self.capacity }),
            Some(index) => {
                proof {
                    assert(old(self).free_list@[old(self).free_list@.len() - 1] == index);
                }
                let buf = self.buffer_for_index(index);
                Ok((index, buf))
            },
        }
    }

    /// Return block `index` to the pool.
    pub fn deallocate(&mut self, index: usize)
        requires
            old(self).wf(),
            index < old(self).spec_capacity(),
        ensures
            deallocate_step(*old(self), index, *final(self)),
    {
        self.free_list.push(index);
    }

    /// The handle for block `index`, leaving the free list as it is.
    pub fn get_block(&self, index: usize) -> (b: BlockBuffer)
        requires
            self.wf(),
            index < self.spec_capacity(),
        ensures
            b.address() == self.base_address() + index * self.spec_block_size(),
            b.spec_len() == self.spec_block_size(),
            b.address() % PAGE_ALIGNMENT == 0,
            b.address() != 0,
    {
        self.buffer_for_index(index)
    }

    /// A copy of the bytes of block `index`.
    pub fn read_block(&self, index: usize) -> (r: Vec<u8>)
        requires
            self.wf(),
            index < self.spec_capacity(),
        ensures
            r@ == self.block(index as int),
    {
        proof {
            lemma_block_in_region(index as int, self.capacity as int, self.block_size as int);
            self.backing.lemma_layout();
        }
        let all = self.backing.as_ref();
        let start = index * self.block_size;
        let part = &all[start..start + self.block_size];
        vstd::slice::slice_to_vec(part)
    }

    /// Fill block `index` with zero bytes.
    pub fn clear_block(&mut self, index: usize)
        requires
            old(self).wf(),
            index < old(self).spec_capacity(),
        ensures
            final(self).wf(),
            final(self).free() == old(self).free(),
            final(self).spec_capacity() == old(self).spec_capacity(),
            final(self).spec_block_size() == old(self).spec_block_size(),
            final(self).base_address() == old(self).base_address(),
            final(self).block(index as int) == Seq::new(old(self).spec_block_size(), |i: int| 0u8),
            forall|j: int| 0 <= j < old(self).spec_capacity() && j != index ==> #[trigger] final(self).block(j)
                == old(self).block(j),
    {
        let zeros: Vec<u8> = vec![0u8; self.block_size];
        proof {
            assert forall|i: int| 0 <= i < zeros@.len() implies #[trigger] zeros@[i] == 0u8 by {
                assert(vstd::pervasive::cloned(0u8, zeros@[i]));
            }
            assert(zeros@ =~= Seq::new(self.spec_block_size(), |i: int| 0u8));
        }
        self.write_block(index, zeros.as_slice());
    }

    /// Overwrite block `index` with `src`; no other byte changes.
    pub fn write_block(&mut self, index: usize, src: &[u8])
        requires
            old(self).wf(),
            index < old(self).spec_capacity(),
            src@.len() == old(self).spec_block_size(),
        ensures
            final(self).wf(),
            final(self).free() == old(self).free(),
            final(self).spec_capacity() == old(self).spec_capacity(),
            final(self).spec_block_size() == old(self).spec_block_size(),
            final(self).base_address() == old(self).base_address(),
            final(self).block(index as int) == src@,
            forall|j: int| 0 <= j < old(self).spec_capacity() && j != index ==> #[trigger] final(self).block(j)
                == old(self).block(j),
    {
        proof {
            lemma_block_in_region(index as int, self.capacity as int, self.block_size as int);
            self.backing.lemma_layout();
        }
        let ghost d0 = self.data();
        let start = index * self.block_size;
        self.backing.copy_in(start, src);
        proof {
            let bs = self.block_size as int;
            let d1 = self.data();
            self.backing.lemma_layout();
            assert(self.block(index as int) =~= src@);
            assert forall|j: int| 0 <= j < self.capacity && j != index implies #[trigger] self.block(j) == old(self).block(j) by {
                lemma_block_in_region(j, self.capacity as int, bs);
                if j < index {
                    assert(j * bs + bs <= index * bs) by (nonlinear_arith)
                        requires
                            j < index,
                            bs > 0,
                    ;
                } else {
                    assert(index * bs + bs <= j * bs) by (nonlinear_arith)
                        requires
                            index < j,
                            bs > 0,
                    ;
                }
                assert(self.block(j) =~= old(self).block(j));
            }
        }
    }

    /// Number of blocks currently available for allocation.
    pub fn free_count(&self) -> (n: usize)
        ensures
            n == self.free().len(),
    {
        self.free_list.len()
    }

    /// Number of blocks currently in use.
    pub fn used_count(&self) -> (n: usize)
        requires
            self.free().len() <= self.spec_capacity(),
        ensures
            n == self.spec_capacity() - self.free().len(),
    {
        self.capacity - self.free_list.len()
    }

    /// Total block capacity of the pool.
    pub fn capacity(&self) -> (n: usize)
        ensures
            n == self.spec_capacity(),
    {
        self.capacity
    }

    /// Size of a single block in bytes.
    pub fn block_size(&self) -> (n: usize)
        ensures
            n == self.spec_block_size(),
    {
        self.block_size
    }

    /// Start address of the region.
    pub fn base_ptr(&self) -> (p: usize)
        requires
            self.wf(),
        ensures
            p == self.base_address(),
            p % PAGE_ALIGNMENT == 0,
            p != 0,
    {
        self.backing.as_ptr()
    }
}

/// `deallocate` of the block that `allocate` just handed out restores the
/// free list, and the pool's data is untouched.
pub proof fn law_allocate_then_deallocate(
    p0: MemoryPool,
    p1: MemoryPool,
    r: CacheResult<(usize, BlockBuffer)>,
    index: usize,
    p2: MemoryPool,
)
    requires
        allocate_step(p0, p1, r),
        r matches Ok((i, _)) && i == index,
        deallocate_step(p1, index, p2),
    ensures
        p2.free() == p0.free(),
        p2.data() == p0.data(),
{
    assert(p0.free().drop_last().push(p0.free().last()) =~= p0.free());
}

/// The `j`-th allocation from a fresh pool of `n` blocks hands out block
/// `n - 1 - j` and leaves blocks `0 .. n - 1 - j` free: each block once, the
/// highest first.
pub proof fn law_fresh_pool_allocations(n: nat, j: nat)
    requires
        j < n,
    ensures
        Seq::new(n, |i: int| i as usize).subrange(0, n - j).last() == (n - 1 - j) as usize,
        Seq::new(n, |i: int| i as usize).subrange(0, n - j).drop_last() == Seq::new(
            n,
            |i: int| i as usize,
        ).subrange(0, n - j - 1),
{
    assert(Seq::new(n, |i: int| i as usize).subrange(0, n - j).drop_last() =~= Seq::new(
        n,
        |i: int| i as usize,
    ).subrange(0, n - j - 1));
}

} // verus!
