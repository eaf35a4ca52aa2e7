//! System calls.
use vstd::prelude::*;
use crate::peripherals::RegOp;
use crate::trap::{pend_sv_set, ICSR_ADDR, ICSR_PENDSVSET};

verus! {

/// System call identifiers.
#[derive(Clone, Copy, Debug, PartialEq, Eq, Structural)]
pub enum SVCallId {
    /// Give up the processor to the next process.
    Yield,
}

impl SVCallId {
    /// The number passed in r0 for this call.
    pub fn number(&self) -> (n: u8)
        ensures
            *self == SVCallId::Yield ==> n == 1,
    {
        match self {
            SVCallId::Yield => 1,
        }
    }
}

/// Handles system call `comment`. Only `Yield` (1) exists: it pends a
/// context switch; the return address is left as it is. Other numbers make
/// the firmware panic.
pub fn handle_syscall(comment: u32, ret_pc: &mut u32) -> (op: RegOp)
    requires
        comment == 1,
    ensures
        op == (RegOp::Modify { addr: ICSR_ADDR, clear: 0, set: ICSR_PENDSVSET }),
        *final(ret_pc) == *old(ret_pc),
{
    pend_sv_set()
}

} // verus!
