use m0_kernel::peripherals::core_regs::{SysTick, IPR, IT_PENDSV};
use m0_kernel::peripherals::exti::EXTI;
use m0_kernel::peripherals::gpio::GPIOA;
use m0_kernel::peripherals::rcc::{ClockSource, PPREScaler, Rcc, RccConfig, SysClkMultiplier};
use m0_kernel::peripherals::usart::Usart;
use m0_kernel::peripherals::{Config, RegOp, UsartConfig};

fn pll_config(pclk: u32, baud: u32) -> Config {
    Config {
        rcc_config: RccConfig {
            source: ClockSource::PLL,
            sysclk: SysClkMultiplier(SysClkMultiplier::PLL_MUL2),
            pclk: PPREScaler(pclk),
        },
        usart_config: UsartConfig { baud_rate: baud },
    }
}

#[test]
fn rcc_with_pll() {
    let c = pll_config(PPREScaler::AS_SYSCLK, 9600);
    let rcc = Rcc::new(&c.rcc_config);
    assert_eq!(
        rcc.steps,
        vec![
            RegOp::Modify { addr: 0x4002_1000, clear: 1 << 24, set: 0 },
            RegOp::WaitWhile { addr: 0x4002_1000, mask: 1 << 25, value: 1 },
            RegOp::Modify { addr: 0x4002_1004, clear: 0b1111 << 18, set: 0 },
            RegOp::Modify { addr: 0x4002_1000, clear: 0, set: 1 << 24 },
            RegOp::WaitWhile { addr: 0x4002_1000, mask: 1 << 25, value: 1 },
            RegOp::Modify { addr: 0x4002_1004, clear: 0b11, set: 0b10 },
            RegOp::Modify { addr: 0x4002_1014, clear: 0, set: 1 << 17 },
            RegOp::Modify { addr: 0x4002_101C, clear: 0, set: 1 << 17 },
        ]
    );
    let frozen = rcc.freeze([7; 14]);
    assert_eq!(frozen.registers, [7; 14]);
}

#[test]
fn rcc_with_hsi_and_prescaler() {
    let c = RccConfig {
        source: ClockSource::HSI,
        sysclk: SysClkMultiplier(SysClkMultiplier::_HSI_DEFAULT),
        pclk: PPREScaler(PPREScaler::PPRE_DIV4),
    };
    let rcc = Rcc::new(&c);
    assert_eq!(
        rcc.steps,
        vec![
            RegOp::Modify { addr: 0x4002_1004, clear: 0b111 << 8, set: 0b101 },
            RegOp::Modify { addr: 0x4002_1014, clear: 0, set: 1 << 17 },
            RegOp::Modify { addr: 0x4002_101C, clear: 0, set: 1 << 17 },
        ]
    );
}

#[test]
fn usart_baud_divisors() {
    let ops = Usart::new(&pll_config(PPREScaler::AS_SYSCLK, 9600));
    assert_eq!(ops[0], RegOp::Write { addr: 0x4000_440C, value: 4_000_000 * 2 / 9600 });
    assert_eq!(ops[1], RegOp::Write { addr: 0x4000_4400, value: 0x2D });
    assert_eq!(ops[2], RegOp::Write { addr: 0x4000_4404, value: 0 });
    assert_eq!(ops[3], RegOp::Write { addr: 0x4000_4408, value: 0 });
    assert_eq!(ops.len(), 4);
    let ops = Usart::new(&pll_config(PPREScaler::PPRE_DIV16, 115200));
    assert_eq!(ops[0], RegOp::Write { addr: 0x4000_440C, value: 4_000_000 * 2 / 16 / 115200 });
    let hsi = Config {
        rcc_config: RccConfig {
            source: ClockSource::HSI,
            sysclk: SysClkMultiplier(SysClkMultiplier::_HSI_DEFAULT),
            pclk: PPREScaler(PPREScaler::AS_SYSCLK),
        },
        usart_config: UsartConfig { baud_rate: 9600 },
    };
    assert_eq!(Usart::new(&hsi)[0], RegOp::Write { addr: 0x4000_440C, value: 833 });
}

#[test]
fn usart_write_sequences() {
    let one = Usart::write(b'x');
    assert_eq!(
        one,
        vec![
            RegOp::WaitWhile { addr: 0x4000_441C, mask: 1 << 7, value: 0 },
            RegOp::Write { addr: 0x4000_4428, value: b'x' as u32 },
            RegOp::WaitWhile { addr: 0x4000_441C, mask: 1 << 6, value: 0 },
            RegOp::Modify { addr: 0x4000_4420, clear: 0, set: 1 << 6 },
        ]
    );
    let s = Usart::write_string(b"hi");
    assert_eq!(s.len(), 8);
    assert_eq!(s[1], RegOp::Write { addr: 0x4000_4428, value: b'h' as u32 });
    assert_eq!(s[5], RegOp::Write { addr: 0x4000_4428, value: b'i' as u32 });
    assert!(Usart::write_string(b"").is_empty());
    assert_eq!(
        Usart::read_polling(),
        vec![
            RegOp::WaitWhile { addr: 0x4000_441C, mask: 1 << 5, value: 0 },
            RegOp::Read { addr: 0x4000_4424 },
        ]
    );
}

#[test]
fn gpio_exti_systick_ipr() {
    assert_eq!(
        GPIOA::new(),
        vec![
            RegOp::Modify { addr: 0x4800_0000, clear: 0, set: 0b10 << 4 },
            RegOp::Modify { addr: 0x4800_0000, clear: 0, set: 0b10 << 6 },
            RegOp::Modify { addr: 0x4800_0020, clear: 0, set: 1 << 8 },
            RegOp::Modify { addr: 0x4800_0020, clear: 0, set: 1 << 12 },
        ]
    );
    assert_eq!(
        EXTI::init(),
        vec![
            RegOp::Modify { addr: 0xE000_E100, clear: 0, set: 1 << 28 },
            RegOp::Modify { addr: 0x4001_0400, clear: 1 << 27, set: 1 << 28 },
        ]
    );
    assert_eq!(EXTI::mask_usart2(), RegOp::Modify { addr: 0x4001_0400, clear: 1 << 28, set: 0 });
    assert_eq!(EXTI::unmask_usart2(), RegOp::Modify { addr: 0x4001_0400, clear: 0, set: 1 << 28 });
    assert_eq!(
        SysTick::enable(),
        vec![
            RegOp::Modify { addr: 0xE000_E010, clear: 0, set: 0b111 },
            RegOp::Modify { addr: 0xE000_E014, clear: 0, set: 0xBEEF * 3 },
        ]
    );
    assert_eq!(
        IPR::set_priority(IT_PENDSV, 43),
        RegOp::SetByte { addr: 0xE000_E40C, index: 2, value: 43 }
    );
    assert_eq!(IPR::set_priority(0, 1), RegOp::SetByte { addr: 0xE000_E400, index: 0, value: 1 });
}

#[test]
fn peripherals_init_orders_the_setup() {
    let c = pll_config(PPREScaler::AS_SYSCLK, 9600);
    let rcc = Rcc::new(&c.rcc_config);
    let expected_usart = Usart::new(&c);
    let (p, ops) = m0_kernel::peripherals::Peripherals::init(rcc, c, [3; 14]);
    assert_eq!(p.rcc.registers, [3; 14]);
    assert!(p.usart.is_none());
    let mut expected = GPIOA::new();
    expected.extend(expected_usart);
    expected.extend(EXTI::init());
    assert_eq!(ops, expected);
}
