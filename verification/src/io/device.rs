//! The handle of an opened block device: its descriptor, path and metadata.
//! Opening and closing the descriptor is the caller's business.

use vstd::prelude::*;

use super::device_info::DeviceInfo;

verus! {

/// A handle to a block device opened for direct I/O.
#[derive(Debug, Clone)]
pub struct BlockDevice {
    fd: i32,
    path: String,
    info: DeviceInfo,
}

impl BlockDevice {
    /// The handle for descriptor `fd`, opened on `path`, with metadata `info`.
    pub fn from_parts(fd: i32, path: String, info: DeviceInfo) -> (d: Self)
        ensures
            d.spec_fd() == fd,
            d.spec_path() == path@,
            d.spec_info() == info,
    {
        BlockDevice { fd, path, info }
    }

    /// The descriptor.
    pub closed spec fn spec_fd(&self) -> i32 {
        self.fd
    }

    /// The path.
    pub closed spec fn spec_path(&self) -> Seq<char> {
        self.path@
    }

    /// The metadata.
    pub closed spec fn spec_info(&self) -> DeviceInfo {
        self.info
    }

    /// Raw file descriptor for use with `pread` / `pwrite`.
    pub fn fd(&self) -> (fd: i32)
        ensures
            fd == self.spec_fd(),
    {
        self.fd
    }

    /// The device metadata.
    pub fn info(&self) -> (i: &DeviceInfo)
        ensures
            *i == self.spec_info(),
    {
        &self.info
    }

    /// The device path.
    pub fn path(&self) -> (p: &str)
        ensures
            p@ == self.spec_path(),
    {
        self.path.as_str()
    }
}

} // verus!
