//! Page-aligned, zero-initialised byte buffers, as `O_DIRECT` I/O demands.
//!
//! The buffer over-allocates a plain `Vec<u8>` by one page less a byte and
//! starts its window at the first page boundary inside it, so the window's
//! start address is a multiple of [`PAGE_ALIGNMENT`] without any unsafe code.

use vstd::prelude::*;

use crate::error::{CacheError, CacheResult};
use crate::text::{decimal, decimal_text, joined};

verus! {

/// Default alignment for all I/O buffers: one OS page (4 KiB).
pub const PAGE_ALIGNMENT: usize = 4096;

/// The start address of a vector's heap buffer.
///
/// Calls `Vec::as_ptr` and reads the address. The contract claims only what
/// the standard library documents: a vector's pointer is never null, and an
/// allocation does not wrap around the end of the address space. Which
/// address comes back depends on the allocator and is not stated.
#[verifier::external_body]
fn heap_address(v: &Vec<u8>) -> (addr: usize)
    ensures
        v.len() > 0 ==> addr + v.len() <= usize::MAX + 1,
        v.len() > 0 ==> addr != 0,
{
    v.as_ptr() as usize
}

/// The reason text for a size that is not a whole number of pages.
pub open spec fn misaligned_size_reason(size: nat) -> Seq<char> {
    seq!['s', 'i', 'z', 'e', ' ', '('] + decimal(size) + ") must be a multiple of 4096"@
}

/// A heap byte buffer whose start address is a multiple of [`PAGE_ALIGNMENT`].
pub struct AlignedBuffer {
    storage: Vec<u8>,
    offset: usize,
    size: usize,
    addr: usize,
}

impl View for AlignedBuffer {
    type V = Seq<u8>;

    closed spec fn view(&self) -> Seq<u8> {
        self.storage@.subrange(self.offset as int, self.offset + self.size)
    }
}

impl AlignedBuffer {
    /// The window lies inside the storage, starts on a page boundary and does
    /// not reach past the end of the address space.
    pub closed spec fn wf(&self) -> bool {
        &&& self.offset + self.size <= self.storage.len()
        &&& (self.addr + self.offset) % (PAGE_ALIGNMENT as int) == 0
        &&& self.addr + self.offset + self.size <= usize::MAX + 1
        &&& self.addr + self.offset <= usize::MAX
        &&& self.addr > 0
    }

    /// The start address of the buffer.
    pub closed spec fn address(&self) -> int {
        self.addr + self.offset
    }

    /// The number of bytes in the buffer.
    pub closed spec fn spec_len(&self) -> nat {
        self.size as nat
    }

    /// What a well-formed buffer guarantees of its length and address.
    pub proof fn lemma_layout(&self)
        requires
            self.wf(),
        ensures
            self@.len() == self.spec_len(),
            self.spec_len() <= usize::MAX,
            0 < self.address() <= usize::MAX,
            self.address() + self.spec_len() <= usize::MAX + 1,
            self.address() % (PAGE_ALIGNMENT as int) == 0,
    {
    }

    /// Allocate a zero-filled buffer of `size` bytes.
    ///
    /// Fails with `Allocation` when `size` is zero, is not a multiple of
    /// [`PAGE_ALIGNMENT`], or is too large for an allocation together with
    /// its alignment slack.
    pub fn new(size: usize) -> (r: CacheResult<Self>)
        ensures
            size == 0 ==> (r matches Err(CacheError::Allocation { reason })
                && reason@ == "requested size is zero"@),
            size != 0 && size % PAGE_ALIGNMENT != 0 ==> (r matches Err(CacheError::Allocation { reason })
                && reason@ == misaligned_size_reason(size as nat)),
            size != 0 && size % PAGE_ALIGNMENT == 0 && size > isize::MAX - (PAGE_ALIGNMENT - 1) ==> (
                r matches Err(CacheError::Allocation { reason })
                && reason@ == "invalid layout: invalid parameters to Layout::from_size_align"@),
            size != 0 && size % PAGE_ALIGNMENT == 0 && size <= isize::MAX - (PAGE_ALIGNMENT - 1) ==> (
                r matches Ok(b) && b.wf() && b.spec_len() == size && b@ == Seq::new(size as nat, |i: int| 0u8)),
    {
        if size == 0 {
            return Err(CacheError::Allocation { reason: "requested size is zero".to_owned() });
        }
        if size % PAGE_ALIGNMENT != 0 {
            let n = decimal_text(size as u64);
            let head = joined("size (", n.as_str());
            let reason = joined(head.as_str(), ") must be a multiple of 4096");
            proof {
                reveal_strlit("size (");
                assert(reason@ =~= misaligned_size_reason(size as nat));
            }
            return Err(CacheError::Allocation { reason });
        }
        if size > (isize::MAX as usize) - (PAGE_ALIGNMENT - 1) {
            return Err(
                CacheError::Allocation {
                    reason: "invalid layout: invalid parameters to Layout::from_size_align".to_owned(),
                },
            );
        }
        let total = size + (PAGE_ALIGNMENT - 1);
        let storage: Vec<u8> = vec![0u8; total];
        let addr = heap_address(&storage);
        let rem = addr % PAGE_ALIGNMENT;
        let offset = if rem == 0 { 0 } else { PAGE_ALIGNMENT - rem };
        let b = AlignedBuffer { storage, offset, size, addr };
        proof {
            assert((addr + offset) % (PAGE_ALIGNMENT as int) == 0) by (nonlinear_arith)
                requires
                    rem == addr % PAGE_ALIGNMENT,
                    offset == (if rem == 0 { 0 } else { PAGE_ALIGNMENT - rem }),
                    PAGE_ALIGNMENT == 4096;
            assert forall|i: int| 0 <= i < total implies #[trigger] b.storage@[i] == 0u8 by {
                assert(vstd::pervasive::cloned(0u8, b.storage@[i]));
            }
            assert(b@ =~= Seq::new(size as nat, |i: int| 0u8));
        }
        Ok(b)
    }

    /// The start address of the buffer, a multiple of [`PAGE_ALIGNMENT`].
    pub fn as_ptr(&self) -> (p: usize)
        requires
            self.wf(),
        ensures
            p == self.address(),
            p != 0,
            p % PAGE_ALIGNMENT == 0,
    {
        self.addr + self.offset
    }

    /// The start address of the buffer, for writing through it.
    pub fn as_mut_ptr(&mut self) -> (p: usize)
        requires
            old(self).wf(),
        ensures
            p == old(self).address(),
            p != 0,
            p % PAGE_ALIGNMENT == 0,
            *final(self) == *old(self),
    {
        self.addr + self.offset
    }

    /// Total size of the buffer in bytes.
    pub fn len(&self) -> (n: usize)
        ensures
            n == self.spec_len(),
    {
        self.size
    }

    /// `true` if the buffer has no bytes (never after a successful `new`).
    pub fn is_empty(&self) -> (b: bool)
        ensures
            b == (self.spec_len() == 0),
    {
        self.size == 0
    }

    /// The bytes of the buffer.
    pub fn as_ref(&self) -> (s: &[u8])
        requires
            self.wf(),
        ensures
            s@ == self@,
    {
        let all = self.storage.as_slice();
        &all[self.offset..self.offset + self.size]
    }

    /// Overwrite `src.len()` bytes starting at byte `pos`.
    pub fn copy_in(&mut self, pos: usize, src: &[u8])
        requires
            old(self).wf(),
            pos + src@.len() <= old(self).spec_len(),
        ensures
            final(self).wf(),
            final(self).address() == old(self).address(),
            final(self).spec_len() == old(self).spec_len(),
            final(self)@ == old(self)@.subrange(0, pos as int) + src@ + old(self)@.subrange(
                pos + src@.len(),
                old(self).spec_len() as int,
            ),
    {
        let ghost s0 = self@;
        let ghost st0 = self.storage@;
        let mut j: usize = 0;
        while j < src.len()
            invariant
                self.wf(),
                self.offset == old(self).offset,
                self.size == old(self).size,
                self.addr == old(self).addr,
                self.storage@.len() == st0.len(),
                pos + src@.len() <= self.size,
                j <= src@.len(),
                forall|q: int| 0 <= q < st0.len() && !(self.offset + pos <= q < self.offset + pos + j)
                    ==> #[trigger] self.storage@[q] == st0[q],
                forall|q: int| 0 <= q < j ==> #[trigger] self.storage@[self.offset + pos + q] == src@[q],
            decreases src@.len() - j,
        {
            let at = self.offset + pos + j;
            self.storage.set(at, src[j]);
            j = j + 1;
        }
        proof {
            let want = s0.subrange(0, pos as int) + src@ + s0.subrange(pos + src@.len(), s0.len() as int);
            assert forall|q: int| 0 <= q < self.size implies #[trigger] self@[q] == want[q] by {
                assert(self@[q] == self.storage@[self.offset + q]);
                if q < pos {
                    assert(st0[self.offset + q] == s0[q]);
                } else if q < pos + src@.len() {
                    assert(self.storage@[self.offset + pos + (q - pos)] == src@[q - pos]);
                } else {
                    assert(st0[self.offset + q] == s0[q]);
                }
            }
            assert(self@ =~= want);
        }
    }
}

} // verus!
