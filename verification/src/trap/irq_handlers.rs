//! The USART2 interrupt handlers.
use vstd::prelude::*;
use crate::circ_buffer::{CircularBuffer, CAP};
use crate::peripherals::usart::{ICR_TCCF, USART_ICR};
use crate::peripherals::RegOp;

verus! {

/// Clears the transmission-complete flag of USART2.
pub fn usart2_transmission_complete() -> (op: RegOp)
    ensures
        op == (RegOp::Modify { addr: USART_ICR, clear: 0, set: ICR_TCCF }),
{
    proof {
        assert(1u32 << 6u32 == 0x40u32) by (bit_vector);
    }
    RegOp::Modify { addr: USART_ICR, clear: 0, set: 1 << 6 }
}

/// Takes the byte in the low eight bits of the receive data register `rdr`
/// into the receive buffer; the result tells whether the receive interrupt
/// is to be masked (the buffer was full).
pub fn usart2_irq_receive(rdr: u32, cb: &mut CircularBuffer) -> (mask_receive: bool)
    requires
        old(cb).wf(),
    ensures
        final(cb).wf(),
        mask_receive == (old(cb)@.len() == CAP - 1),
        !mask_receive ==> final(cb)@ == old(cb)@.push((rdr % 256) as u8),
        mask_receive ==> final(cb)@ == Seq::<u8>::empty(),
{
    proof {
        assert(rdr & 0xFFu32 == rdr % 256) by (bit_vector);
    }
    let data = (rdr & 0xFF) as u8;
    cb.put(data)
}

} // verus!
