//! The reset and clock controller.
use vstd::prelude::*;
use crate::peripherals::RegOp;

verus! {

/// Base address of the RCC registers.
pub const RCC_ADDR: usize = 0x4002_1000;
/// Clock control register.
pub const RCC_CR: usize = 0x4002_1000;
/// Clock configuration register.
pub const RCC_CFGR: usize = 0x4002_1004;
/// AHB peripheral clock enable register.
pub const RCC_AHBENR: usize = 0x4002_1014;
/// APB1 peripheral clock enable register.
pub const RCC_APB1ENR: usize = 0x4002_101C;
/// Frequency of the internal oscillator.
pub const HSI_DEFAULT_CLK: u32 = 8_000_000;

#[derive(Clone, Copy, Debug, PartialEq, Eq, Structural)]
pub enum ClockSource {
    HSI,
    PLL,
}

/// System clock setting: the PLL multiplier field (or, for the internal
/// oscillator, its frequency).
#[derive(Clone, Copy, Debug, PartialEq, Eq, Structural)]
pub struct SysClkMultiplier(pub u32);

/// Field values of the system clock setting.
impl SysClkMultiplier {
    pub const _HSI_DEFAULT: u32 = HSI_DEFAULT_CLK;
    pub const PLL_MUL2: u32 = 0x0;
    pub const PLL_MUL3: u32 = 0x1;
    pub const PLL_MUL4: u32 = 0x2;
    pub const PLL_MUL5: u32 = 0x3;
    pub const PLL_MUL6: u32 = 0x4;
}

/// APB prescaler field.
#[derive(Clone, Copy, Debug, PartialEq, Eq, Structural)]
pub struct PPREScaler(pub u32);

/// Field values of the APB prescaler.
impl PPREScaler {
    pub const AS_SYSCLK: u32 = 0x0;
    pub const PPRE_DIV2: u32 = 0x4;
    pub const PPRE_DIV4: u32 = 0x5;
    pub const PPRE_DIV8: u32 = 0x6;
    pub const PPRE_DIV16: u32 = 0x7;
}

pub struct RccConfig {
    pub source: ClockSource,
    pub sysclk: SysClkMultiplier,
    pub pclk: PPREScaler,
}

/// The clock controller once configured: the register accesses that
/// configured it.
pub struct Rcc {
    pub steps: Vec<RegOp>,
}

/// The register values of the clock controller read back after
/// configuration, in register order (CR, CFGR, CIR, APB2RSTR, APB1RSTR,
/// AHBENR, APB2ENR, APB1ENR, BDCR, CSR, AHBRSTR, CFGR2, CFGR3, CR2).
pub struct RCC {
    pub registers: [u32; 14],
}

/// The register accesses that configure the clocks for `c`. With the PLL
/// as source: stop the PLL, wait on its ready flag, put the multiplier into
/// CFGR (after clearing bits 18 to 21), start the PLL, wait again, and
/// select the PLL as system clock. Then, unless the APB prescaler is "as
/// SYSCLK", write it (after clearing bits 8 to 10). Last, enable the GPIOA
/// and USART2 clocks. The waits test the ready flag (bit 25) for equality
/// with 1, which a masked bit 25 never is.
pub open spec fn rcc_steps(c: &RccConfig) -> Seq<RegOp> {
    let pll = if c.source == ClockSource::PLL {
        seq![
            RegOp::Modify { addr: RCC_CR, clear: 0x0100_0000, set: 0 },
            RegOp::WaitWhile { addr: RCC_CR, mask: 0x0200_0000, value: 1 },
            RegOp::Modify { addr: RCC_CFGR, clear: 0x003C_0000, set: c.sysclk.0 },
            RegOp::Modify { addr: RCC_CR, clear: 0, set: 0x0100_0000 },
            RegOp::WaitWhile { addr: RCC_CR, mask: 0x0200_0000, value: 1 },
            RegOp::Modify { addr: RCC_CFGR, clear: 0b11, set: 0b10 },
        ]
    } else {
        Seq::empty()
    };
    let ppre = if c.pclk.0 != PPREScaler::AS_SYSCLK {
        seq![RegOp::Modify { addr: RCC_CFGR, clear: 0x0700, set: c.pclk.0 }]
    } else {
        Seq::empty()
    };
    pll + ppre + seq![
        RegOp::Modify { addr: RCC_AHBENR, clear: 0, set: 0x0002_0000 },
        RegOp::Modify { addr: RCC_APB1ENR, clear: 0, set: 0x0002_0000 },
    ]
}

impl Rcc {
    /// The clock controller configured for `c`.
    pub fn new(c: &RccConfig) -> (rcc: Rcc)
        ensures
            rcc.steps@ == rcc_steps(c),
    {
        let mut ops: Vec<RegOp> = Vec::new();
        proof {
            assert(1u32 << 24u32 == 0x0100_0000u32) by (bit_vector);
            assert(1u32 << 25u32 == 0x0200_0000u32) by (bit_vector);
            assert(0b1111u32 << 18u32 == 0x003C_0000u32) by (bit_vector);
            assert(0b111u32 << 8u32 == 0x0700u32) by (bit_vector);
            assert(1u32 << 17u32 == 0x0002_0000u32) by (bit_vector);
        }
        if c.source == ClockSource::PLL {
            ops.push(RegOp::Modify { addr: RCC_CR, clear: 1 << 24, set: 0 });
            ops.push(RegOp::WaitWhile { addr: RCC_CR, mask: 1 << 25, value: 1 });
            ops.push(RegOp::Modify { addr: RCC_CFGR, clear: 0b1111 << 18, set: c.sysclk.0 });
            ops.push(RegOp::Modify { addr: RCC_CR, clear: 0, set: 1 << 24 });
            ops.push(RegOp::WaitWhile { addr: RCC_CR, mask: 1 << 25, value: 1 });
            ops.push(RegOp::Modify { addr: RCC_CFGR, clear: 0b11, set: 0b10 });
        }
        if c.pclk.0 != PPREScaler::AS_SYSCLK {
            ops.push(RegOp::Modify { addr: RCC_CFGR, clear: 0b111 << 8, set: c.pclk.0 });
        }
        ops.push(RegOp::Modify { addr: RCC_AHBENR, clear: 0, set: 1 << 17 });
        ops.push(RegOp::Modify { addr: RCC_APB1ENR, clear: 0, set: 1 << 17 });
        proof {
            assert(ops@ =~= rcc_steps(c));
        }
        Rcc { steps: ops }
    }

    /// The configured controller with its registers as read back.
    pub fn freeze(self, registers: [u32; 14]) -> (r: RCC)
        ensures
            r.registers == registers,
    {
        RCC { registers }
    }
}

} // verus!
