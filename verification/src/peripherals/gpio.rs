//! GPIO port A, whose pins 2 and 3 carry USART2.
use vstd::prelude::*;
use crate::peripherals::RegOp;

verus! {

/// Mode register of port A.
pub const GPIOA_MODER: usize = 0x4800_0000;
/// Alternate-function low register of port A.
pub const GPIOA_AFRL: usize = 0x4800_0020;

pub struct GPIOA;

/// PA2 and PA3 in alternate-function mode, with AF1 (USART2) selected.
pub open spec fn gpioa_steps() -> Seq<RegOp> {
    seq![
        RegOp::Modify { addr: GPIOA_MODER, clear: 0, set: 0x20 },
        RegOp::Modify { addr: GPIOA_MODER, clear: 0, set: 0x80 },
        RegOp::Modify { addr: GPIOA_AFRL, clear: 0, set: 0x100 },
        RegOp::Modify { addr: GPIOA_AFRL, clear: 0, set: 0x1000 },
    ]
}

impl GPIOA {
    /// Puts PA2 and PA3 in alternate-function mode and selects AF1
    /// (USART2) for both.
    pub fn new() -> (ops: Vec<RegOp>)
        ensures
            ops@ == gpioa_steps(),
    {
        let mut ops: Vec<RegOp> = Vec::new();
        ops.push(RegOp::Modify { addr: GPIOA_MODER, clear: 0, set: 0b10 << 4 });
        ops.push(RegOp::Modify { addr: GPIOA_MODER, clear: 0, set: 0b10 << 6 });
        ops.push(RegOp::Modify { addr: GPIOA_AFRL, clear: 0, set: 0b0001 << 8 });
        ops.push(RegOp::Modify { addr: GPIOA_AFRL, clear: 0, set: 0b0001 << 12 });
        proof {
            assert(2u32 << 4u32 == 0x20u32) by (bit_vector);
            assert(2u32 << 6u32 == 0x80u32) by (bit_vector);
            assert(1u32 << 8u32 == 0x100u32) by (bit_vector);
            assert(1u32 << 12u32 == 0x1000u32) by (bit_vector);
            assert(ops@ =~= gpioa_steps());
        }
        ops
    }
}

} // verus!
