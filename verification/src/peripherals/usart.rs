//! USART2, the console.
use vstd::prelude::*;
use crate::peripherals::rcc::{ClockSource, HSI_DEFAULT_CLK};
use crate::peripherals::{Config, RegOp};

verus! {

/// Base address of the USART2 registers.
pub const USART2_ADDR: usize = 0x4000_4400;
pub const USART_CR1: usize = 0x4000_4400;
pub const USART_CR2: usize = 0x4000_4404;
pub const USART_CR3: usize = 0x4000_4408;
pub const USART_BRR: usize = 0x4000_440C;
pub const USART_ISR: usize = 0x4000_441C;
pub const USART_ICR: usize = 0x4000_4420;
pub const USART_RDR: usize = 0x4000_4424;
pub const USART_TDR: usize = 0x4000_4428;

/// CR1: receive interrupt, transmitter, receiver and USART enabled.
pub const CR1_ENABLE: u32 = 0x2D;
/// ISR: transmit data register empty.
pub const ISR_TXE: u32 = 0x80;
/// ISR: transmission complete.
pub const ISR_TC: u32 = 0x40;
/// ISR: read data register not empty.
pub const ISR_RXNE: u32 = 0x20;
/// ICR: clear the transmission-complete flag.
pub const ICR_TCCF: u32 = 0x40;

pub struct Usart;

/// Divisor of the APB prescaler field, for the field values that exist.
pub open spec fn ppre_divisor(field: u32) -> int {
    if field == 0 {
        1
    } else if field == 4 {
        2
    } else if field == 5 {
        4
    } else if field == 6 {
        8
    } else {
        16
    }
}

/// Whether `Usart::new(c)` computes its baud divisor without dividing by
/// zero, overflowing, or meeting a prescaler field that has no divisor.
pub open spec fn usart_config_ok(c: &Config) -> bool {
    let rc = c.rcc_config;
    &&& c.usart_config.baud_rate != 0
    &&& rc.source == ClockSource::PLL ==> {
        &&& (rc.pclk.0 == 0 || rc.pclk.0 == 4 || rc.pclk.0 == 5 || rc.pclk.0 == 6 || rc.pclk.0
            == 7)
        &&& (HSI_DEFAULT_CLK / 2) as int * (rc.sysclk.0 as int + 2) <= u32::MAX
    }
}

/// The baud rate divisor written to BRR: the system clock setting divided
/// by the baud rate on the internal oscillator; with the PLL, half the
/// internal oscillator times (multiplier field + 2), divided by the APB
/// prescaler's divisor and then by the baud rate.
pub open spec fn baud_divisor(c: &Config) -> int {
    let rc = c.rcc_config;
    if rc.source == ClockSource::HSI {
        rc.sysclk.0 as int / c.usart_config.baud_rate as int
    } else {
        (HSI_DEFAULT_CLK / 2) as int * (rc.sysclk.0 as int + 2) / ppre_divisor(rc.pclk.0)
            / c.usart_config.baud_rate as int
    }
}

/// The baud rate divisor, then CR1 with receive interrupt, transmitter,
/// receiver and the USART enabled, CR2 and CR3 cleared.
pub open spec fn usart_setup_steps(c: &Config) -> Seq<RegOp> {
    seq![
        RegOp::Write { addr: USART_BRR, value: baud_divisor(c) as u32 },
        RegOp::Write { addr: USART_CR1, value: CR1_ENABLE },
        RegOp::Write { addr: USART_CR2, value: 0 },
        RegOp::Write { addr: USART_CR3, value: 0 },
    ]
}

/// The accesses that send one byte: wait until the transmit register is
/// empty, write the byte, wait for transmission complete, clear that flag.
pub open spec fn byte_steps(data: u8) -> Seq<RegOp> {
    seq![
        RegOp::WaitWhile { addr: USART_ISR, mask: ISR_TXE, value: 0 },
        RegOp::Write { addr: USART_TDR, value: data as u32 },
        RegOp::WaitWhile { addr: USART_ISR, mask: ISR_TC, value: 0 },
        RegOp::Modify { addr: USART_ICR, clear: 0, set: ICR_TCCF },
    ]
}

/// The accesses that send the bytes of `s` in order.
pub open spec fn string_steps(s: Seq<u8>) -> Seq<RegOp>
    decreases s.len(),
{
    if s.len() == 0 {
        Seq::empty()
    } else {
        string_steps(s.drop_last()) + byte_steps(s.last())
    }
}

impl Usart {
    /// Whether `new` may be called with `c`.
    pub fn config_ok(c: &Config) -> (r: bool)
        ensures
            r == usart_config_ok(c),
    {
        let rc = &c.rcc_config;
        assert(HSI_DEFAULT_CLK / 2 == 4_000_000);
        if c.usart_config.baud_rate == 0 {
            return false;
        }
        if rc.source == ClockSource::PLL {
            let p = rc.pclk.0;
            (p == 0 || p == 4 || p == 5 || p == 6 || p == 7) && rc.sysclk.0 <= 1071
        } else {
            true
        }
    }

    /// Programs the baud rate divisor for the clock configuration, then
    /// enables receive interrupt, transmitter, receiver and the USART and
    /// clears CR2 and CR3.
    pub fn new(c: &Config) -> (ops: Vec<RegOp>)
        requires
            usart_config_ok(c),
        ensures
            ops@ == usart_setup_steps(c),
    {
        let mut ops: Vec<RegOp> = Vec::new();
        let rc = &c.rcc_config;
        if rc.source == ClockSource::HSI {
            ops.push(RegOp::Write { addr: USART_BRR, value: rc.sysclk.0 / c.usart_config.baud_rate });
        } else if rc.source == ClockSource::PLL {
            let ppre_divisor: u32 = match rc.pclk.0 {
                0 => 1,
                4 => 2,
                5 => 4,
                6 => 8,
                _ => 16,
            };
            ops.push(
                RegOp::Write {
                    addr: USART_BRR,
                    value: (HSI_DEFAULT_CLK / 2) * (rc.sysclk.0 + 2) / ppre_divisor
                        / c.usart_config.baud_rate,
                },
            );
        }
        proof {
            assert((1u32 << 5u32) | (1u32 << 3u32) | (1u32 << 2u32) | (1u32 << 0u32) == 0x2Du32)
                by (bit_vector);
        }
        ops.push(RegOp::Write { addr: USART_CR1, value: (1 << 5) | (1 << 3) | (1 << 2) | (1 << 0) });
        ops.push(RegOp::Write { addr: USART_CR2, value: 0 });
        ops.push(RegOp::Write { addr: USART_CR3, value: 0 });
        proof {
            assert(ops@ =~= usart_setup_steps(c));
        }
        ops
    }

    /// Sends one byte.
    pub fn write(data: u8) -> (ops: Vec<RegOp>)
        ensures
            ops@ == byte_steps(data),
    {
        let mut ops: Vec<RegOp> = Vec::new();
        Self::push_byte(&mut ops, data);
        proof {
            assert(ops@ =~= byte_steps(data));
        }
        ops
    }

    fn push_byte(ops: &mut Vec<RegOp>, data: u8)
        ensures
            final(ops)@ == old(ops)@ + byte_steps(data),
    {
        proof {
            assert((data as u32) & 0xFFu32 == data as u32) by (bit_vector);
            assert(1u32 << 7u32 == 0x80u32) by (bit_vector);
            assert(1u32 << 6u32 == 0x40u32) by (bit_vector);
        }
        ops.push(RegOp::WaitWhile { addr: USART_ISR, mask: 1 << 7, value: 0 });
        ops.push(RegOp::Write { addr: USART_TDR, value: data as u32 & 0xFF });
        ops.push(RegOp::WaitWhile { addr: USART_ISR, mask: 1 << 6, value: 0 });
        ops.push(RegOp::Modify { addr: USART_ICR, clear: 0, set: 1 << 6 });
        proof {
            assert(final(ops)@ =~= old(ops)@ + byte_steps(data));
        }
    }

    /// Sends the bytes of `s` in order.
    pub fn write_string(s: &[u8]) -> (ops: Vec<RegOp>)
        ensures
            ops@ == string_steps(s@),
    {
        let mut ops: Vec<RegOp> = Vec::new();
        let mut i: usize = 0;
        while i < s.len()
            invariant
                i <= s@.len(),
                ops@ == string_steps(s@.take(i as int)),
            decreases s@.len() - i,
        {
            Self::push_byte(&mut ops, s[i]);
            proof {
                assert(s@.take(i + 1).drop_last() =~= s@.take(i as int));
            }
            i = i + 1;
        }
        proof {
            assert(s@.take(i as int) =~= s@);
        }
        ops
    }

    /// Waits for a received byte and reads it (the value is not used).
    pub fn read_polling() -> (ops: Vec<RegOp>)
        ensures
            ops@ == seq![
                RegOp::WaitWhile { addr: USART_ISR, mask: ISR_RXNE, value: 0 },
                RegOp::Read { addr: USART_RDR },
            ],
    {
        let mut ops: Vec<RegOp> = Vec::new();
        proof {
            assert(1u32 << 5u32 == 0x20u32) by (bit_vector);
        }
        ops.push(RegOp::WaitWhile { addr: USART_ISR, mask: 1 << 5, value: 0 });
        ops.push(RegOp::Read { addr: USART_RDR });
        proof {
            assert(ops@ =~= seq![
                RegOp::WaitWhile { addr: USART_ISR, mask: ISR_RXNE, value: 0 },
                RegOp::Read { addr: USART_RDR },
            ]);
        }
        ops
    }
}

} // verus!
