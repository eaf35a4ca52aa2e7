//! Bring-up of the clock tree, the GPIO port, the external-interrupt
//! controller and USART2, expressed as the register accesses to perform.
//!
//! Each operation is computed here; the firmware carries them out on the
//! memory-mapped registers in the order given.
pub mod core_regs;
pub mod exti;
pub mod gpio;
pub mod rcc;
pub mod usart;

use vstd::prelude::*;
use crate::peripherals::exti::{exti_init_steps, EXTI};
use crate::peripherals::gpio::{gpioa_steps, GPIOA};
use crate::peripherals::rcc::{Rcc, RccConfig, RCC};
use crate::peripherals::usart::{usart_config_ok, usart_setup_steps, Usart};

verus! {

/// One access to a memory-mapped register.
#[derive(Clone, Copy, Debug, PartialEq, Eq, Structural)]
pub enum RegOp {
    /// `*addr = (*addr & !clear) | set`.
    Modify { addr: usize, clear: u32, set: u32 },
    /// `*addr = value`.
    Write { addr: usize, value: u32 },
    /// Spin while `*addr & mask == value`.
    WaitWhile { addr: usize, mask: u32, value: u32 },
    /// Read `*addr` once, discarding the value.
    Read { addr: usize },
    /// Set byte `index` of the 4-byte register at `addr` to `value`.
    SetByte { addr: usize, index: usize, value: u8 },
}

/// Board configuration.
pub struct Config {
    pub rcc_config: RccConfig,
    pub usart_config: UsartConfig,
}

pub struct UsartConfig {
    pub baud_rate: u32,
}

/// The peripherals once brought up: the frozen clock configuration, the
/// GPIO port, and the USART slot (the USART itself is kept apart, for the
/// console).
pub struct Peripherals {
    pub rcc: RCC,
    pub gpioa: GPIOA,
    pub usart: Option<Usart>,
}

impl Peripherals {
    /// Freezes the clock configuration with the registers read back, and
    /// returns the accesses that set up GPIOA, then USART2, then enable its
    /// interrupt. The last step is the whole `EXTI::init` sequence (NVIC
    /// enable, EXTI line 28 unmasked, line 27 masked) rather than unmasking
    /// line 28 alone: without the NVIC enable the receive interrupt would
    /// never be taken, and `init` is the one routine of the EXTI block that
    /// sets both up.
    pub fn init(rcc: Rcc, c: Config, rcc_registers: [u32; 14]) -> (r: (Peripherals, Vec<RegOp>))
        requires
            usart_config_ok(&c),
        ensures
            r.0.rcc.registers == rcc_registers,
            r.0.usart is None,
            r.1@ == gpioa_steps() + usart_setup_steps(&c) + exti_init_steps(),
    {
        let rcc_freeze = rcc.freeze(rcc_registers);
        let mut ops = GPIOA::new();
        let mut usart_ops = Usart::new(&c);
        let mut exti_ops = EXTI::init();
        ops.append(&mut usart_ops);
        ops.append(&mut exti_ops);
        (Peripherals { rcc: rcc_freeze, gpioa: GPIOA, usart: None }, ops)
    }
}

} // verus!
