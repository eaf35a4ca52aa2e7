//! The external-interrupt controller line of USART2 (line 28).
use vstd::prelude::*;
use crate::peripherals::RegOp;

verus! {

/// EXTI interrupt mask register.
pub const EXTI_IMR: usize = 0x4001_0400;
/// NVIC interrupt set-enable register.
pub const NVIC_ISER: usize = 0xE000_E100;

pub struct EXTI;

/// The USART2 interrupt enabled in the NVIC, EXTI line 28 unmasked and
/// line 27 (USART1) masked.
pub open spec fn exti_init_steps() -> Seq<RegOp> {
    seq![
        RegOp::Modify { addr: NVIC_ISER, clear: 0, set: 0x1000_0000 },
        RegOp::Modify { addr: EXTI_IMR, clear: 0x0800_0000, set: 0x1000_0000 },
    ]
}

impl EXTI {
    /// Enables the USART2 interrupt in the NVIC, unmasks EXTI line 28 and
    /// masks line 27 (USART1).
    pub fn init() -> (ops: Vec<RegOp>)
        ensures
            ops@ == exti_init_steps(),
    {
        let mut ops: Vec<RegOp> = Vec::new();
        ops.push(RegOp::Modify { addr: NVIC_ISER, clear: 0, set: 1 << 28 });
        ops.push(RegOp::Modify { addr: EXTI_IMR, clear: 1 << 27, set: 1 << 28 });
        proof {
            assert(1u32 << 28u32 == 0x1000_0000u32) by (bit_vector);
            assert(1u32 << 27u32 == 0x0800_0000u32) by (bit_vector);
            assert(ops@ =~= exti_init_steps());
        }
        ops
    }

    /// Masks EXTI line 28, so that received bytes no longer interrupt.
    pub fn mask_usart2() -> (op: RegOp)
        ensures
            op == (RegOp::Modify { addr: EXTI_IMR, clear: 0x1000_0000, set: 0 }),
    {
        RegOp::Modify { addr: EXTI_IMR, clear: 0x1000_0000, set: 0 }
    }

    /// Unmasks EXTI line 28 again.
    pub fn unmask_usart2() -> (op: RegOp)
        ensures
            op == (RegOp::Modify { addr: EXTI_IMR, clear: 0, set: 0x1000_0000 }),
    {
        RegOp::Modify { addr: EXTI_IMR, clear: 0, set: 0x1000_0000 }
    }
}

} // verus!
