//! Block-device metadata, the device handle, and the bookkeeping of direct
//! block transfers.

pub mod device;
pub mod device_info;
pub mod transfer;
