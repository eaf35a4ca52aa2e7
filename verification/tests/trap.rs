use m0_kernel::circ_buffer::CircularBuffer;
use m0_kernel::peripherals::RegOp;
use m0_kernel::syscall::{handle_syscall, SVCallId};
use m0_kernel::trap::irq_handlers::{usart2_irq_receive, usart2_transmission_complete};
use m0_kernel::trap::{
    clear_interrupt, exception_number, frame_aligned, pend_sv_set, trap_action, Fault, TrapAction,
};

#[test]
fn exception_numbers_decide_the_action() {
    assert_eq!(exception_number(0xFFFF_FF0F), 15);
    assert_eq!(trap_action(0x2000_1000, 15), TrapAction::PendSv);
    assert_eq!(trap_action(0x2000_1000, 44), TrapAction::UsartReceive);
    assert_eq!(trap_action(0x2000_1000, 2), TrapAction::Fault(Fault::Nmi));
    assert_eq!(trap_action(0x2000_1000, 3), TrapAction::Fault(Fault::HardFault));
    assert_eq!(trap_action(0x2000_1000, 11), TrapAction::Fault(Fault::SvCall));
    assert_eq!(trap_action(0x2000_1000, 0x0040_0000 | 44), TrapAction::UsartReceive);
    assert_eq!(trap_action(0x2000_1000, 16), TrapAction::Fault(Fault::Unhandled(16)));
    assert_eq!(trap_action(0x2000_1004, 15), TrapAction::Fault(Fault::MisalignedStack));
}

#[test]
fn register_writes_of_the_handler() {
    assert_eq!(pend_sv_set(), RegOp::Modify { addr: 0xE000_ED04, clear: 0, set: 1 << 28 });
    assert_eq!(clear_interrupt(), RegOp::Write { addr: 0xE000_E180, value: 1 });
    assert_eq!(usart2_transmission_complete(), RegOp::Modify { addr: 0x4000_4420, clear: 0, set: 1 << 6 });
}

#[test]
fn yield_pends_a_switch() {
    let mut pc: u32 = 0x0800_0123;
    assert_eq!(SVCallId::Yield.number(), 1);
    assert_eq!(handle_syscall(1, &mut pc), RegOp::Modify { addr: 0xE000_ED04, clear: 0, set: 1 << 28 });
    assert_eq!(pc, 0x0800_0123);
}

#[test]
fn received_bytes_go_into_the_buffer() {
    let mut cb = CircularBuffer::init();
    assert!(!usart2_irq_receive(0x1234_5641, &mut cb));
    match cb.get() {
        (Ok(b), _) => assert_eq!(b, 0x41),
        _ => panic!("expected a byte"),
    }
}

#[test]
fn frame_alignment_is_checked_first() {
    assert!(frame_aligned(0x2000_1000));
    assert!(!frame_aligned(0x2000_1004));
    assert_eq!(trap_action(0x2000_1004, 15), TrapAction::Fault(Fault::MisalignedStack));
}
