//! Bookkeeping of a direct block transfer. A transfer of `len` bytes at byte
//! `offset` is a loop of `pread` / `pwrite` calls, each of which moves some
//! bytes; a call that moves none ends the transfer with an error.

use vstd::prelude::*;

use crate::error::{CacheError, CacheResult, IoErrorKind, IoFailure};
use crate::text::{decimal, decimal_text, joined};

verus! {

/// The byte offset of block `lba` for blocks of `block_size` bytes.
pub fn lba_offset(lba: u64, block_size: usize) -> (off: u64)
    requires
        lba * block_size <= u64::MAX,
    ensures
        off == lba * block_size,
{
    lba * (block_size as u64)
}

/// The message of a read that reached the end of the device early.
pub open spec fn eof_message(at: nat, done: nat, len: nat) -> Seq<char> {
    "unexpected EOF at offset "@ + decimal(at) + " (read "@ + decimal(done) + " of "@ + decimal(len) + " bytes)"@
}

/// The message of a write that transferred nothing.
pub open spec fn write_zero_message(at: nat, done: nat, len: nat) -> Seq<char> {
    "zero-length write at offset "@ + decimal(at) + " (wrote "@ + decimal(done) + " of "@ + decimal(len)
        + " bytes)"@
}

/// After a `pread` at byte `offset + done` that returned `moved` (not an
/// error), the new count of bytes read; a zero return is an early end of the
/// device.
pub fn read_progress(offset: u64, done: usize, len: usize, moved: usize) -> (r: CacheResult<usize>)
    requires
        done < len,
        moved <= len - done,
        offset + done <= u64::MAX,
    ensures
        moved > 0 ==> r == Ok::<usize, CacheError>((done + moved) as usize),
        moved == 0 ==> (r matches Err(CacheError::Io { operation, source }) && operation@ == "pread"@
            && source.kind == IoErrorKind::UnexpectedEof && source.message@ == eof_message(
            (offset + done) as nat,
            done as nat,
            len as nat,
        )),
{
    if moved > 0 {
        return Ok(done + moved);
    }
    let at = decimal_text(offset + done as u64);
    let d = decimal_text(done as u64);
    let l = decimal_text(len as u64);
    let m1 = joined("unexpected EOF at offset ", at.as_str());
    let m2 = joined(m1.as_str(), " (read ");
    let m3 = joined(m2.as_str(), d.as_str());
    let m4 = joined(m3.as_str(), " of ");
    let m5 = joined(m4.as_str(), l.as_str());
    let message = joined(m5.as_str(), " bytes)");
    Err(CacheError::Io {
        operation: "pread".to_owned(),
        source: IoFailure { kind: IoErrorKind::UnexpectedEof, message },
    })
}

/// After a `pwrite` at byte `offset + done` that returned `moved` (not an
/// error), the new count of bytes written; a zero return is an error.
pub fn write_progress(offset: u64, done: usize, len: usize, moved: usize) -> (r: CacheResult<usize>)
    requires
        done < len,
        moved <= len - done,
        offset + done <= u64::MAX,
    ensures
        moved > 0 ==> r == Ok::<usize, CacheError>((done + moved) as usize),
        moved == 0 ==> (r matches Err(CacheError::Io { operation, source }) && operation@ == "pwrite"@
            && source.kind == IoErrorKind::WriteZero && source.message@ == write_zero_message(
            (offset + done) as nat,
            done as nat,
            len as nat,
        )),
{
    if moved > 0 {
        return Ok(done + moved);
    }
    let at = decimal_text(offset + done as u64);
    let d = decimal_text(done as u64);
    let l = decimal_text(len as u64);
    let m1 = joined("zero-length write at offset ", at.as_str());
    let m2 = joined(m1.as_str(), " (wrote ");
    let m3 = joined(m2.as_str(), d.as_str());
    let m4 = joined(m3.as_str(), " of ");
    let m5 = joined(m4.as_str(), l.as_str());
    let message = joined(m5.as_str(), " bytes)");
    Err(CacheError::Io {
        operation: "pwrite".to_owned(),
        source: IoFailure { kind: IoErrorKind::WriteZero, message },
    })
}

} // verus!
