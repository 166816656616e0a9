//! The signals that the engine sends to the flush thread, and the thread's
//! decision to stop.

use vstd::prelude::*;

verus! {

/// Signals that can be sent to the flush thread.
#[derive(Debug, Clone, Copy, PartialEq, Eq, Structural)]
pub enum FlushSignal {
    /// Run a flush cycle immediately (e.g. dirty watermark exceeded).
    Wake,
    /// Perform a final flush and then terminate the thread.
    Shutdown,
}

/// After a flush cycle, the flush thread exits when the signal that woke it
/// was `Shutdown` or when a stop has been requested.
pub fn should_exit_after_cycle(signal: Option<FlushSignal>, stop_requested: bool) -> (b: bool)
    ensures
        b == (signal == Some(FlushSignal::Shutdown) || stop_requested),
{
    match signal {
        Some(FlushSignal::Shutdown) => true,
        _ => stop_requested,
    }
}

} // verus!
