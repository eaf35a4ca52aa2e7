use m0_kernel::circ_buffer::{CircularBuffer, EmptyBufferError, CAP};

fn take(cb: &mut CircularBuffer) -> (Option<u8>, bool) {
    match cb.get() {
        (Ok(b), unmask) => (Some(b), unmask),
        (Err(EmptyBufferError), unmask) => (None, unmask),
    }
}

#[test]
fn empty_buffer_reports_error() {
    let mut cb = CircularBuffer::init();
    assert_eq!(take(&mut cb), (None, false));
}

#[test]
fn bytes_come_out_in_order() {
    let mut cb = CircularBuffer::init();
    assert!(!cb.put(b'a'));
    assert!(!cb.put(b'b'));
    assert!(!cb.put(b'c'));
    assert_eq!(take(&mut cb), (Some(b'a'), false));
    assert_eq!(take(&mut cb), (Some(b'b'), false));
    // Taking the last queued byte asks for the receive interrupt back.
    assert_eq!(take(&mut cb), (Some(b'c'), true));
    assert_eq!(take(&mut cb), (None, false));
}

#[test]
fn full_buffer_masks_and_loses_its_contents() {
    let mut cb = CircularBuffer::init();
    for i in 0..(CAP - 1) {
        assert!(!cb.put(i as u8));
    }
    // The ring holds CAP - 1 bytes; one more asks for masking and the write
    // index catches up with the read index.
    assert!(cb.put(200));
    assert_eq!(take(&mut cb), (None, false));
}

#[test]
fn unmask_check_after_wrap_uses_wrapped_index() {
    let mut cb = CircularBuffer::init();
    for i in 0..(CAP - 1) {
        cb.put(i as u8);
    }
    for i in 0..(CAP - 1) {
        assert_eq!(take(&mut cb).0, Some(i as u8));
    }
    // read = write = 29; one more byte puts the write index at 0.
    assert!(!cb.put(77));
    // The last byte is taken, but the check compares the read index (29)
    // with (0 - 1) % 30 computed with wrapping, which is 15.
    assert_eq!(take(&mut cb), (Some(77), false));
    assert_eq!(take(&mut cb), (None, false));
}

#[test]
fn ring_wraps_around() {
    let mut cb = CircularBuffer::init();
    for round in 0..5u8 {
        for i in 0..20u8 {
            assert!(!cb.put(round.wrapping_mul(20).wrapping_add(i)));
        }
        for i in 0..20u8 {
            assert_eq!(take(&mut cb).0, Some(round.wrapping_mul(20).wrapping_add(i)));
        }
    }
}

#[test]
fn fill_then_drain_is_first_in_first_out() {
    let mut cb = CircularBuffer::init();
    let data: Vec<u8> = (0..(CAP - 1)).map(|i| (i as u8).wrapping_mul(7).wrapping_add(3)).collect();
    for &d in &data {
        assert!(!cb.put(d));
    }
    for &d in &data {
        assert_eq!(take(&mut cb).0, Some(d));
    }
    assert_eq!(take(&mut cb), (None, false));
}
