//! SysTick and the interrupt priority registers of the core.
use vstd::prelude::*;
use crate::peripherals::RegOp;

verus! {

/// SysTick control and status register.
pub const SYST_CSR: usize = 0xE000_E010;
/// SysTick reload value register.
pub const SYST_RVR: usize = 0xE000_E014;
/// First interrupt priority register.
pub const IPR_0_BASE: usize = 0xE000_E400;

/// Exception number of PendSV.
pub const IT_PENDSV: u8 = 14;

/// Reload value of SysTick: `0xBEEF * 3`, about 15 ms at 8 MHz.
pub const SYSTICK_RELOAD: u32 = 0x0002_3CCD;

pub struct SysTick;

pub struct IPR;

impl SysTick {
    /// Enables the counter and its interrupt on the processor clock, and
    /// ORs the reload value into the reload register.
    pub fn enable() -> (ops: Vec<RegOp>)
        ensures
            ops@ == seq![
                RegOp::Modify { addr: SYST_CSR, clear: 0, set: 0b111 },
                RegOp::Modify { addr: SYST_RVR, clear: 0, set: SYSTICK_RELOAD },
            ],
    {
        let mut ops: Vec<RegOp> = Vec::new();
        ops.push(RegOp::Modify { addr: SYST_CSR, clear: 0, set: (1 << 0) | (1 << 1) | (1 << 2) });
        ops.push(RegOp::Modify { addr: SYST_RVR, clear: 0, set: 0xBEEF * 3 });
        proof {
            assert((1u32 << 0u32) | (1u32 << 1u32) | (1u32 << 2u32) == 7u32) by (bit_vector);
            assert(ops@ =~= seq![
                RegOp::Modify { addr: SYST_CSR, clear: 0, set: 0b111 },
                RegOp::Modify { addr: SYST_RVR, clear: 0, set: SYSTICK_RELOAD },
            ]);
        }
        ops
    }
}

impl IPR {
    /// Sets the priority byte of exception `interrupt_num`: byte
    /// `interrupt_num % 4` of the priority register `interrupt_num / 4`.
    pub fn set_priority(interrupt_num: u8, priority: u8) -> (op: RegOp)
        ensures
            op == (RegOp::SetByte {
                addr: (IPR_0_BASE + (interrupt_num / 4) * 4) as usize,
                index: (interrupt_num % 4) as usize,
                value: priority,
            }),
    {
        let ipr_n = interrupt_num / 4;
        let ipr_offset = (interrupt_num % 4) as usize;
        RegOp::SetByte { addr: IPR_0_BASE + (ipr_n as usize * 4), index: ipr_offset, value: priority }
    }
}

} // verus!
