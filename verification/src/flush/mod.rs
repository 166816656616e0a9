//! Write-back scheduling: when the flusher runs and when it stops.

pub mod scheduler;
pub mod sync;
