//! The crate's error type. Every fallible operation returns
//! `Result<T, CacheError>`; variants run from configuration mistakes through
//! I/O failures to internal invariant violations.

use vstd::prelude::*;

use crate::text::{decimal, decimal_text, joined};

verus! {

/// The class of an operating-system I/O failure, as far as the cache reads it.
#[derive(Debug, Clone, Copy, PartialEq, Eq, Structural)]
pub enum IoErrorKind {
    /// The process lacks the privileges for the operation.
    PermissionDenied,
    /// A read ended before the requested number of bytes.
    UnexpectedEof,
    /// A write transferred zero bytes.
    WriteZero,
    /// Any other failure.
    Other,
}

/// An I/O failure reported by the operating system: its class and its text.
#[derive(Debug, Clone)]
pub struct IoFailure {
    /// What kind of failure it was.
    pub kind: IoErrorKind,
    /// The failure's description.
    pub message: String,
}

/// Top-level error type of the cache engine.
#[derive(Debug, Clone)]
pub enum CacheError {
    /// The supplied configuration contains an invalid or contradictory value.
    Config { message: String },
    /// The device path does not exist on the filesystem.
    DeviceNotFound { path: String },
    /// The path exists but is not a block device.
    NotBlockDevice { path: String },
    /// Page-aligned memory allocation failed.
    Allocation { reason: String },
    /// A pointer or buffer does not meet the required alignment.
    Alignment { expected: usize, actual: usize },
    /// The cache memory pool has no free blocks available.
    PoolExhausted { in_use: usize, capacity: usize },
    /// A low-level I/O system call failed.
    Io { operation: String, source: IoFailure },
    /// An `ioctl` call returned an unexpected value.
    Ioctl { name: String, detail: String },
    /// The background flush thread panicked or could not be joined.
    FlushThread { reason: String },
    /// A cache-internal invariant was violated.
    Internal { message: String },
    /// The requested LBA is outside the addressable range of the device.
    LbaOutOfRange { lba: u64, max_lba: u64 },
    /// Permission denied when accessing the block device.
    PermissionDenied { detail: String },
}

/// Convenience alias used throughout the crate.
pub type CacheResult<T> = Result<T, CacheError>;

/// `s` as written after an operation's name: `"operation: s"`.
pub open spec fn with_operation(operation: Seq<char>, s: Seq<char>) -> Seq<char> {
    operation + seq![':', ' '] + s
}

/// The message of an error, as the command line prints it after its code.
pub open spec fn error_message(e: CacheError) -> Seq<char> {
    match e {
        CacheError::Config { message } => "Configuration error: "@ + message@,
        CacheError::DeviceNotFound { path } => "Device path does not exist: "@ + path@,
        CacheError::NotBlockDevice { path } => "Path is not a block device: "@ + path@,
        CacheError::Allocation { reason } => "Memory allocation failed: "@ + reason@,
        CacheError::Alignment { expected, actual } => "Alignment violation: expected "@ + decimal(
            expected as nat,
        ) + "-byte alignment, got offset "@ + decimal(actual as nat),
        CacheError::PoolExhausted { in_use, capacity } => "Cache pool exhausted ("@ + decimal(in_use as nat)
            + " of "@ + decimal(capacity as nat) + " blocks in use)"@,
        CacheError::Io { operation, source } => "I/O error on "@ + operation@ + ": "@ + source.message@,
        CacheError::Ioctl { name, detail } => "ioctl "@ + name@ + " failed: "@ + detail@,
        CacheError::FlushThread { reason } => "Flush thread error: "@ + reason@,
        CacheError::Internal { message } => "Internal error: "@ + message@,
        CacheError::LbaOutOfRange { lba, max_lba } => "LBA "@ + decimal(lba as nat) + " is out of range (device has "@
            + decimal(max_lba as nat) + " blocks)"@,
        CacheError::PermissionDenied { detail } => "Permission denied: "@ + detail@
            + ". Try running with sudo or CAP_SYS_RAWIO."@,
    }
}

/// `a`, then `b`, then `c`.
fn joined3(a: &str, b: &str, c: &str) -> (r: String)
    ensures
        r@ == a@ + b@ + c@,
{
    let ab = joined(a, b);
    joined(ab.as_str(), c)
}

/// `a`, `b`, `c`, then `d`.
fn joined4(a: &str, b: &str, c: &str, d: &str) -> (r: String)
    ensures
        r@ == a@ + b@ + c@ + d@,
{
    let abc = joined3(a, b, c);
    joined(abc.as_str(), d)
}

impl CacheError {
    /// The error's message: see [`error_message`].
    pub fn to_string(&self) -> (r: String)
        ensures
            r@ == error_message(*self),
    {
        match self {
            CacheError::Config { message } => joined("Configuration error: ", message.as_str()),
            CacheError::DeviceNotFound { path } => joined("Device path does not exist: ", path.as_str()),
            CacheError::NotBlockDevice { path } => joined("Path is not a block device: ", path.as_str()),
            CacheError::Allocation { reason } => joined("Memory allocation failed: ", reason.as_str()),
            CacheError::Alignment { expected, actual } => {
                let e = decimal_text(*expected as u64);
                let a = decimal_text(*actual as u64);
                let head = joined3("Alignment violation: expected ", e.as_str(), "-byte alignment, got offset ");
                joined(head.as_str(), a.as_str())
            },
            CacheError::PoolExhausted { in_use, capacity } => {
                let u = decimal_text(*in_use as u64);
                let c = decimal_text(*capacity as u64);
                let head = joined3("Cache pool exhausted (", u.as_str(), " of ");
                joined3(head.as_str(), c.as_str(), " blocks in use)")
            },
            CacheError::Io { operation, source } => joined4(
                "I/O error on ",
                operation.as_str(),
                ": ",
                source.message.as_str(),
            ),
            CacheError::Ioctl { name, detail } => joined4("ioctl ", name.as_str(), " failed: ", detail.as_str()),
            CacheError::FlushThread { reason } => joined("Flush thread error: ", reason.as_str()),
            CacheError::Internal { message } => joined("Internal error: ", message.as_str()),
            CacheError::LbaOutOfRange { lba, max_lba } => {
                let l = decimal_text(*lba);
                let m = decimal_text(*max_lba);
                let head = joined3("LBA ", l.as_str(), " is out of range (device has ");
                joined3(head.as_str(), m.as_str(), " blocks)")
            },
            CacheError::PermissionDenied { detail } => joined3(
                "Permission denied: ",
                detail.as_str(),
                ". Try running with sudo or CAP_SYS_RAWIO.",
            ),
        }
    }

    /// Wrap an I/O failure with the operation that met it; a permission
    /// failure becomes the friendlier `PermissionDenied`.
    pub fn io(operation: &str, source: IoFailure) -> (e: Self)
        ensures
            source.kind == IoErrorKind::PermissionDenied ==> (e matches CacheError::PermissionDenied { detail }
                && detail@ == with_operation(operation@, source.message@)),
            source.kind != IoErrorKind::PermissionDenied ==> (e matches CacheError::Io { operation: op, source: s }
                && op@ == operation@ && s == source),
    {
        if source.kind == IoErrorKind::PermissionDenied {
            let head = joined(operation, ": ");
            proof {
                reveal_strlit(": ");
            }
            let detail = joined(head.as_str(), source.message.as_str());
            return CacheError::PermissionDenied { detail };
        }
        CacheError::Io { operation: operation.to_owned(), source }
    }

    /// Shorthand for a configuration validation failure.
    pub fn config(msg: &str) -> (e: Self)
        ensures
            e matches CacheError::Config { message } && message@ == msg@,
    {
        CacheError::Config { message: msg.to_owned() }
    }

    /// Shorthand for an internal invariant violation.
    pub fn internal(msg: &str) -> (e: Self)
        ensures
            e matches CacheError::Internal { message } && message@ == msg@,
    {
        CacheError::Internal { message: msg.to_owned() }
    }
}

} // verus!
