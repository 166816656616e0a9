//! The choice of memory-copy strategy. The copy routines themselves are
//! architecture-specific instructions and live with the program.

use vstd::prelude::*;

verus! {

/// Copy strategy selector, determined once at startup.
#[derive(Debug, Clone, Copy, PartialEq, Eq, Structural)]
pub enum CopyStrategy {
    /// Non-temporal streaming stores (`MOVNTDQ`); bypasses the CPU cache.
    NonTemporal,
    /// Enhanced `REP MOVSB`; temporal (cache-friendly).
    Erms,
    /// Plain `memcpy` fallback.
    Generic,
}

/// The primary strategy: non-temporal streaming on x86_64, where SSE2 is
/// always present, the generic copy elsewhere.
pub fn detect_strategy(x86_64: bool) -> (s: CopyStrategy)
    ensures
        x86_64 ==> s == CopyStrategy::NonTemporal,
        !x86_64 ==> s == CopyStrategy::Generic,
{
    if x86_64 { CopyStrategy::NonTemporal } else { CopyStrategy::Generic }
}

impl CopyStrategy {
    /// The human-readable name of the strategy.
    pub fn description(&self) -> (d: &'static str)
        ensures
            *self == CopyStrategy::NonTemporal ==> d@ == "MOVNTDQ (non-temporal streaming)"@,
            *self == CopyStrategy::Erms ==> d@ == "REP MOVSB (Enhanced REP MOVSB)"@,
            *self == CopyStrategy::Generic ==> d@ == "generic memcpy (fallback)"@,
    {
        match self {
            CopyStrategy::NonTemporal => "MOVNTDQ (non-temporal streaming)",
            CopyStrategy::Erms => "REP MOVSB (Enhanced REP MOVSB)",
            CopyStrategy::Generic => "generic memcpy (fallback)",
        }
    }
}

} // verus!
