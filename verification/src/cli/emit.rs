//! The compiler-style diagnostics of errors: each error variant's code, the
//! name shown as its location, and its `note:` / `help:` lines.

use vstd::prelude::*;

use crate::error::CacheError;

verus! {

/// The code of each error variant, `E0001` to `E0012`.
pub open spec fn error_code(e: CacheError) -> Seq<char> {
    match e {
        CacheError::Config { .. } => "E0001"@,
        CacheError::DeviceNotFound { .. } => "E0002"@,
        CacheError::NotBlockDevice { .. } => "E0003"@,
        CacheError::Allocation { .. } => "E0004"@,
        CacheError::Alignment { .. } => "E0005"@,
        CacheError::PoolExhausted { .. } => "E0006"@,
        CacheError::Io { .. } => "E0007"@,
        CacheError::Ioctl { .. } => "E0008"@,
        CacheError::FlushThread { .. } => "E0009"@,
        CacheError::Internal { .. } => "E0010"@,
        CacheError::LbaOutOfRange { .. } => "E0011"@,
        CacheError::PermissionDenied { .. } => "E0012"@,
    }
}

/// Maps each error variant to its compiler-style error code.
pub fn get_error_code(err: &CacheError) -> (code: &'static str)
    ensures
        code@ == error_code(*err),
{
    match err {
        CacheError::Config { .. } => "E0001",
        CacheError::DeviceNotFound { .. } => "E0002",
        CacheError::NotBlockDevice { .. } => "E0003",
        CacheError::Allocation { .. } => "E0004",
        CacheError::Alignment { .. } => "E0005",
        CacheError::PoolExhausted { .. } => "E0006",
        CacheError::Io { .. } => "E0007",
        CacheError::Ioctl { .. } => "E0008",
        CacheError::FlushThread { .. } => "E0009",
        CacheError::Internal { .. } => "E0010",
        CacheError::LbaOutOfRange { .. } => "E0011",
        CacheError::PermissionDenied { .. } => "E0012",
    }
}

/// The location shown for an error: the device path where the error has
/// one, else the name of the subsystem.
pub open spec fn error_location(e: CacheError) -> Seq<char> {
    match e {
        CacheError::DeviceNotFound { path } => path@,
        CacheError::NotBlockDevice { path } => path@,
        CacheError::PermissionDenied { .. } => "device"@,
        CacheError::Config { .. } => "config"@,
        CacheError::Allocation { .. } => "memory"@,
        CacheError::Alignment { .. } => "memory"@,
        CacheError::PoolExhausted { .. } => "cache"@,
        CacheError::Io { .. } => "io"@,
        CacheError::Ioctl { .. } => "io"@,
        CacheError::FlushThread { .. } => "flush"@,
        CacheError::Internal { .. } => "internal"@,
        CacheError::LbaOutOfRange { .. } => "io"@,
    }
}

/// The location shown in the diagnostic of `err`.
pub fn get_error_path(err: &CacheError) -> (p: String)
    ensures
        p@ == error_location(*err),
{
    match err {
        CacheError::DeviceNotFound { path } => path.clone(),
        CacheError::NotBlockDevice { path } => path.clone(),
        CacheError::PermissionDenied { .. } => "device".to_owned(),
        CacheError::Config { .. } => "config".to_owned(),
        CacheError::Allocation { .. } => "memory".to_owned(),
        CacheError::Alignment { .. } => "memory".to_owned(),
        CacheError::PoolExhausted { .. } => "cache".to_owned(),
        CacheError::Io { .. } => "io".to_owned(),
        CacheError::Ioctl { .. } => "io".to_owned(),
        CacheError::FlushThread { .. } => "flush".to_owned(),
        CacheError::Internal { .. } => "internal".to_owned(),
        CacheError::LbaOutOfRange { .. } => "io".to_owned(),
    }
}

/// The label of a closing diagnostic line.
#[derive(Debug, Clone, Copy, PartialEq, Eq, Structural)]
pub enum NoteKind {
    /// `= note:`
    Note,
    /// `= help:`
    Help,
}

/// A closing diagnostic line.
#[derive(Debug, Clone, Copy)]
pub struct Note {
    /// Its label.
    pub kind: NoteKind,
    /// Its text.
    pub text: &'static str,
}

/// The note and help lines that close the diagnostic of each variant.
pub open spec fn notes_of(e: CacheError) -> Seq<(NoteKind, Seq<char>)> {
    match e {
        CacheError::DeviceNotFound { .. } => seq![
            (NoteKind::Note, "make sure the device is plugged in and check the path via `lsblk`"@),
        ],
        CacheError::NotBlockDevice { .. } => seq![
            (NoteKind::Note, "target path exists but is not a hardware block device"@),
            (NoteKind::Help, "only raw block devices (e.g., /dev/sdX, /dev/loopX) are supported"@),
        ],
        CacheError::PermissionDenied { .. } => seq![
            (NoteKind::Note, "reading or writing to raw block devices requires root privileges"@),
            (NoteKind::Help, "try running with `sudo` or check if the user has `CAP_SYS_RAWIO` capability"@),
        ],
        CacheError::Config { .. } => seq![(NoteKind::Note, "verify the command-line arguments"@)],
        CacheError::Allocation { .. } => seq![
            (NoteKind::Note, "system is out of memory or the memory alignment request failed"@),
        ],
        CacheError::Alignment { .. } => seq![
            (NoteKind::Note, "block device operations require O_DIRECT buffers to be page-aligned"@),
        ],
        CacheError::PoolExhausted { .. } => seq![
            (NoteKind::Note, "all memory pool blocks are dirty and background flusher is catching up"@),
            (NoteKind::Help, "increase flush frequency or cache size"@),
        ],
        CacheError::Io { .. } => seq![(NoteKind::Note, "underlying OS system call returned an error"@)],
        CacheError::Ioctl { .. } => seq![
            (NoteKind::Note, "target block device may not support this operation or format"@),
        ],
        CacheError::FlushThread { .. } => seq![
            (NoteKind::Note, "background flusher encountered an unrecoverable panic"@),
        ],
        CacheError::Internal { .. } => seq![
            (NoteKind::Note, "this is a bug in the cache engine; please report it"@),
        ],
        CacheError::LbaOutOfRange { .. } => seq![
            (NoteKind::Note, "cannot access an offset beyond the physical device capacity"@),
        ],
    }
}

/// The labels and texts of a list of notes.
pub open spec fn note_texts(notes: Seq<Note>) -> Seq<(NoteKind, Seq<char>)> {
    notes.map_values(|n: Note| (n.kind, n.text@))
}

fn note(kind: NoteKind, text: &'static str) -> (n: Note)
    ensures
        n.kind == kind,
        n.text@ == text@,
{
    Note { kind, text }
}

/// The note and help lines that close the diagnostic of `err`.
pub fn error_notes(err: &CacheError) -> (r: Vec<Note>)
    ensures
        note_texts(r@) == notes_of(*err),
{
    let mut r: Vec<Note> = Vec::new();
    match err {
        CacheError::DeviceNotFound { .. } => {
            r.push(note(NoteKind::Note, "make sure the device is plugged in and check the path via `lsblk`"));
        },
        CacheError::NotBlockDevice { .. } => {
            r.push(note(NoteKind::Note, "target path exists but is not a hardware block device"));
            r.push(note(NoteKind::Help, "only raw block devices (e.g., /dev/sdX, /dev/loopX) are supported"));
        },
        CacheError::PermissionDenied { .. } => {
            r.push(note(NoteKind::Note, "reading or writing to raw block devices requires root privileges"));
            r.push(
                note(
                    NoteKind::Help,
                    "try running with `sudo` or check if the user has `CAP_SYS_RAWIO` capability",
                ),
            );
        },
        CacheError::Config { .. } => {
            r.push(note(NoteKind::Note, "verify the command-line arguments"));
        },
        CacheError::Allocation { .. } => {
            r.push(note(NoteKind::Note, "system is out of memory or the memory alignment request failed"));
        },
        CacheError::Alignment { .. } => {
            r.push(note(NoteKind::Note, "block device operations require O_DIRECT buffers to be page-aligned"));
        },
        CacheError::PoolExhausted { .. } => {
            r.push(
                note(NoteKind::Note, "all memory pool blocks are dirty and background flusher is catching up"),
            );
            r.push(note(NoteKind::Help, "increase flush frequency or cache size"));
        },
        CacheError::Io { .. } => {
            r.push(note(NoteKind::Note, "underlying OS system call returned an error"));
        },
        CacheError::Ioctl { .. } => {
            r.push(note(NoteKind::Note, "target block device may not support this operation or format"));
        },
        CacheError::FlushThread { .. } => {
            r.push(note(NoteKind::Note, "background flusher encountered an unrecoverable panic"));
        },
        CacheError::Internal { .. } => {
            r.push(note(NoteKind::Note, "this is a bug in the cache engine; please report it"));
        },
        CacheError::LbaOutOfRange { .. } => {
            r.push(note(NoteKind::Note, "cannot access an offset beyond the physical device capacity"));
        },
    }
    proof {
        assert(note_texts(r@) =~= notes_of(*err));
    }
    r
}

/// The position of a variant in the list of error kinds, from 1.
pub open spec fn variant_number(e: CacheError) -> nat {
    match e {
        CacheError::Config { .. } => 1,
        CacheError::DeviceNotFound { .. } => 2,
        CacheError::NotBlockDevice { .. } => 3,
        CacheError::Allocation { .. } => 4,
        CacheError::Alignment { .. } => 5,
        CacheError::PoolExhausted { .. } => 6,
        CacheError::Io { .. } => 7,
        CacheError::Ioctl { .. } => 8,
        CacheError::FlushThread { .. } => 9,
        CacheError::Internal { .. } => 10,
        CacheError::LbaOutOfRange { .. } => 11,
        CacheError::PermissionDenied { .. } => 12,
    }
}

/// Two errors share a code exactly when they are of the same kind.
pub proof fn law_error_codes_distinct(a: CacheError, b: CacheError)
    ensures
        error_code(a) == error_code(b) <==> variant_number(a) == variant_number(b),
{
    reveal_strlit("E0001");
    reveal_strlit("E0002");
    reveal_strlit("E0003");
    reveal_strlit("E0004");
    reveal_strlit("E0005");
    reveal_strlit("E0006");
    reveal_strlit("E0007");
    reveal_strlit("E0008");
    reveal_strlit("E0009");
    reveal_strlit("E0010");
    reveal_strlit("E0011");
    reveal_strlit("E0012");
    if variant_number(a) != variant_number(b) {
        assert(error_code(a)[4] != error_code(b)[4] || error_code(a)[3] != error_code(b)[3]);
    }
}

/// The code of an error is `E00` followed by the two decimal digits of its
/// kind's position in the list of error kinds (`Config` first, with code
/// `E0001`, `PermissionDenied` last, with `E0012`).
pub proof fn law_error_code_is_position(e: CacheError)
    ensures
        error_code(e) == "E00"@ + seq![
            crate::text::digit_char(variant_number(e) / 10),
            crate::text::digit_char(variant_number(e) % 10),
        ],
        1 <= variant_number(e) <= 12,
{
    reveal_strlit("E00");
    reveal_strlit("E0001");
    reveal_strlit("E0002");
    reveal_strlit("E0003");
    reveal_strlit("E0004");
    reveal_strlit("E0005");
    reveal_strlit("E0006");
    reveal_strlit("E0007");
    reveal_strlit("E0008");
    reveal_strlit("E0009");
    reveal_strlit("E0010");
    reveal_strlit("E0011");
    reveal_strlit("E0012");
    assert(error_code(e) =~= "E00"@ + seq![
        crate::text::digit_char(variant_number(e) / 10),
        crate::text::digit_char(variant_number(e) % 10),
    ]);
}

} // verus!
