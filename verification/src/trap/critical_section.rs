//! The token that code running with interrupts masked receives.
use vstd::prelude::*;

verus! {

/// Proof that the holder runs inside a critical section.
pub struct CriticalSection;

impl CriticalSection {
    /// The token; the firmware creates it only after masking interrupts.
    pub fn new() -> CriticalSection {
        CriticalSection
    }
}

} // verus!
