//! Exception dispatch: what the trap handler does for each exception
//! number, and the register accesses it makes.
pub mod critical_section;
pub mod irq_handlers;

use vstd::prelude::*;
use crate::peripherals::RegOp;

verus! {

/// Interrupt control and state register.
pub const ICSR_ADDR: usize = 0xE000_ED04;
/// NVIC interrupt clear-enable register.
pub const NVIC_ICER: usize = 0xE000_E180;
/// ICSR: PendSV set-pending bit.
pub const ICSR_PENDSVSET: u32 = 0x1000_0000;

/// Why the trap handler stops the system.
#[derive(Clone, Copy, Debug, PartialEq, Eq, Structural)]
pub enum Fault {
    /// The exception frame is not 8-byte aligned.
    MisalignedStack,
    /// Non-maskable interrupt.
    Nmi,
    /// Hard fault.
    HardFault,
    /// Supervisor call through the trap handler (not implemented).
    SvCall,
    /// Any other exception number.
    Unhandled(u8),
}

/// What the trap handler does.
#[derive(Clone, Copy, Debug, PartialEq, Eq, Structural)]
pub enum TrapAction {
    /// SysTick: pend a context switch.
    PendSv,
    /// USART2: take the received byte into the receive buffer.
    UsartReceive,
    /// Panic with the given reason.
    Fault(Fault),
}

/// The active exception number: the low six bits of ICSR (VECTACTIVE).
pub fn exception_number(icsr: u32) -> (n: u8)
    ensures
        n == icsr % 64,
{
    proof {
        assert(icsr & 0b111111u32 == icsr % 64) by (bit_vector);
    }
    (icsr & 0b111111) as u8
}

/// Whether the exception frame at `stack_ptr` is 8-byte aligned, as the
/// trap handler asserts before it reads the frame.
pub fn frame_aligned(stack_ptr: usize) -> (r: bool)
    ensures
        r == (stack_ptr % 8 == 0),
{
    stack_ptr % 8 == 0
}

/// The decision of the trap handler from the exception frame's address and
/// ICSR: a misaligned frame is a fault; exception 15 (SysTick) pends a
/// context switch, 44 (USART2) receives a byte; 2 (NMI), 3 (hard fault) and
/// 11 (SVCall) are faults, and so is every other number.
pub fn trap_action(stack_ptr: usize, icsr: u32) -> (a: TrapAction)
    ensures
        a == (if stack_ptr % 8 != 0 {
            TrapAction::Fault(Fault::MisalignedStack)
        } else {
            let n = (icsr % 64) as u8;
            if n == 2 {
                TrapAction::Fault(Fault::Nmi)
            } else if n == 3 {
                TrapAction::Fault(Fault::HardFault)
            } else if n == 11 {
                TrapAction::Fault(Fault::SvCall)
            } else if n == 15 {
                TrapAction::PendSv
            } else if n == 44 {
                TrapAction::UsartReceive
            } else {
                TrapAction::Fault(Fault::Unhandled(n))
            }
        }),
{
    if !frame_aligned(stack_ptr) {
        return TrapAction::Fault(Fault::MisalignedStack);
    }
    let exception_number = exception_number(icsr);
    match exception_number {
        2 => TrapAction::Fault(Fault::Nmi),
        3 => TrapAction::Fault(Fault::HardFault),
        11 => TrapAction::Fault(Fault::SvCall),
        15 => TrapAction::PendSv,
        44 => TrapAction::UsartReceive,
        n => TrapAction::Fault(Fault::Unhandled(n)),
    }
}

/// Pends PendSV (bit 28 of ICSR), which performs the context switch.
pub fn pend_sv_set() -> (op: RegOp)
    ensures
        op == (RegOp::Modify { addr: ICSR_ADDR, clear: 0, set: ICSR_PENDSVSET }),
{
    proof {
        assert(1u32 << 28u32 == 0x1000_0000u32) by (bit_vector);
    }
    RegOp::Modify { addr: ICSR_ADDR, clear: 0, set: 1 << 28 }
}

/// The write that ends the handler: disable interrupt 0 in the NVIC.
pub fn clear_interrupt() -> (op: RegOp)
    ensures
        op == (RegOp::Write { addr: NVIC_ICER, value: 1 }),
{
    RegOp::Write { addr: NVIC_ICER, value: 1 }
}

} // verus!
