use m0_kernel::allocator::memory::{
    free, free_in_range, zalloc_block, zalloc_stack, FreeList, Heap,
};
use m0_kernel::allocator::symbols::get_heap_end;

const START: usize = 0x2000_0000;

fn ready_heap(size: usize) -> Heap {
    let mut heap = Heap::new(START, size);
    FreeList::init(&mut heap);
    heap
}

fn header(heap: &Heap, offset: usize) -> (u16, usize) {
    let h = heap.header_at(START + offset);
    (h.size, h.memory)
}

#[test]
fn init_writes_one_free_block() {
    let heap = ready_heap(1024);
    assert!(heap.ready());
    assert_eq!(header(&heap, 0), (1024, 0));
    assert_eq!(get_heap_end(&heap), START + 1024);
}

#[test]
fn unprepared_heap_hands_out_null() {
    let mut heap = Heap::new(START, 1024);
    assert!(!heap.ready());
    assert_eq!(zalloc_block(&mut heap, 16), 0);
    assert_eq!(zalloc_stack(&mut heap, 16), 0);
}

#[test]
fn zalloc_block_splits_the_last_block() {
    let mut heap = ready_heap(1024);
    let p = zalloc_block(&mut heap, 10);
    assert_eq!(p, START + 8);
    // 10 is rounded to 12; the block is marked in use.
    assert_eq!(header(&heap, 0), (13, START + 8));
    // The last block keeps the size minus the request (no header deducted).
    assert_eq!(header(&heap, 20), (1012, 0));
    for a in p..p + 12 {
        assert_eq!(heap.byte_at(a), 0);
    }
}

#[test]
fn free_then_reuse_first_fit() {
    let mut heap = ready_heap(1024);
    let a = zalloc_block(&mut heap, 10);
    let b = zalloc_block(&mut heap, 100);
    assert_eq!(b, START + 28);
    assert_eq!(header(&heap, 20), (101, START + 28));
    assert_eq!(header(&heap, 128), (912, 0));
    assert!(heap.can_free(b));
    free(&mut heap, b);
    assert_eq!(header(&heap, 20), (100, START + 28));
    // A smaller request reuses the freed block; another block follows it
    // inside the heap, so the rest is the size minus the request and two
    // headers.
    assert!(heap.can_zalloc(40));
    let c = zalloc_block(&mut heap, 40);
    assert_eq!(c, START + 28);
    assert_eq!(header(&heap, 20), (41, START + 28));
    assert_eq!(header(&heap, 68).0, 44);
    // The next walk step lands on the zeroed tail of the old block.
    assert_eq!(header(&heap, 120), (0, 0));
    assert_eq!(header(&heap, 0), (13, a));
}

#[test]
fn small_leftover_keeps_the_whole_block() {
    let mut heap = ready_heap(1024);
    let a = zalloc_block(&mut heap, 100);
    let _b = zalloc_block(&mut heap, 4);
    assert_eq!(header(&heap, 108), (5, START + 116));
    free(&mut heap, a);
    assert_eq!(header(&heap, 0), (100, START + 8));
    // 100 - 16 - 88 < 4: the whole block of 100 is handed out.
    let c = zalloc_block(&mut heap, 88);
    assert_eq!(c, START + 8);
    assert_eq!(header(&heap, 0), (101, START + 8));
    free(&mut heap, c);
    // An exact fit.
    let d = zalloc_block(&mut heap, 100);
    assert_eq!(d, START + 8);
    assert_eq!(header(&heap, 0), (101, START + 8));
}

#[test]
fn block_past_the_heap_end_is_refused() {
    let mut heap = ready_heap(64);
    assert!(heap.can_zalloc(40));
    zalloc_block(&mut heap, 40);
    assert_eq!(header(&heap, 48), (24, 0));
    assert!(heap.can_zalloc(4));
    zalloc_block(&mut heap, 4);
    // Only the size field of the last header fits in the heap.
    assert_eq!(heap.byte_at(START + 60), 20);
    assert_eq!(heap.byte_at(START + 61), 0);
    // The last block claims 20 bytes but only 4 are left in the heap.
    assert!(!heap.can_zalloc(4));
    // Requests as large as the heap are refused too.
    assert!(!heap.can_zalloc(64));
    assert!(!heap.can_zalloc(65533));
}

#[test]
fn zalloc_stack_is_eight_aligned() {
    let mut heap = ready_heap(1024);
    assert!(heap.can_zalloc_stack(100));
    let s = zalloc_stack(&mut heap, 100);
    assert_eq!(s, START + 8);
    assert_eq!(header(&heap, 0), (105, START + 8));
}

#[test]
fn zalloc_stack_pads_a_misaligned_block() {
    let mut heap = ready_heap(1024);
    zalloc_block(&mut heap, 4);
    assert_eq!(header(&heap, 12).0, 1020);
    assert!(heap.can_zalloc_stack(16));
    let s = zalloc_stack(&mut heap, 16);
    // A 4-byte block is carved at offset 12 so that the stack lands on an
    // 8-byte boundary.
    assert_eq!(header(&heap, 12).0, 5);
    assert_eq!(s, START + 32);
    assert_eq!(s % 8, 0);
    assert_eq!(header(&heap, 24).0, 17);
}

#[test]
fn free_in_range_with_a_header_address_frees_in_front_of_it() {
    let mut heap = ready_heap(1024);
    zalloc_block(&mut heap, 10);
    zalloc_block(&mut heap, 10);
    assert_eq!(header(&heap, 20), (13, START + 28));
    assert!(heap.can_free_in_range(START + 20));
    free_in_range(&mut heap, START + 20);
    // The walk stops on the header at START + 20, which then goes to `free`
    // as if it were a payload address: the header 8 bytes before it is
    // rewritten, and the block at START + 20 stays in use.
    assert_eq!(header(&heap, 20), (13, START + 28));
    assert_eq!(header(&heap, 12).0, 0);
}

#[test]
fn free_checks_reject_foreign_pointers() {
    let heap = ready_heap(1024);
    assert!(!heap.can_free(START + 2));
    assert!(!heap.can_free(START));
    assert!(!heap.can_free(START + 2048));
    let unprepared = Heap::new(START, 64);
    assert!(!unprepared.can_free_in_range(START + 8));
}

#[test]
fn freeing_a_handed_out_block_restores_it() {
    let mut heap = ready_heap(1024);
    let p = zalloc_block(&mut heap, 32);
    let before = header(&heap, p - START - 8).0;
    assert_eq!(before & 1, 1);
    assert!(heap.can_free(p));
    free(&mut heap, p);
    let after = header(&heap, p - START - 8);
    assert_eq!(after.0, before & !1);
    assert_eq!(after.1, p);
    for a in p..p + 32 {
        assert_eq!(heap.byte_at(a), 0);
    }
}

#[test]
fn stack_request_bounds() {
    let mut unprepared = Heap::new(START, 1024);
    assert!(unprepared.can_zalloc_stack(65528));
    assert!(!unprepared.can_zalloc_stack(65529));
    assert_eq!(zalloc_stack(&mut unprepared, 65528), 0);
    assert_eq!(zalloc_stack(&mut unprepared, 65513), 0);
    let heap = ready_heap(1024);
    assert!(!heap.can_zalloc_stack(65513));
    assert!(!heap.can_zalloc_stack(65528));
}

#[test]
fn free_then_zalloc_returns_the_same_block() {
    let mut heap = ready_heap(1024);
    let a = zalloc_block(&mut heap, 10);
    let b = zalloc_block(&mut heap, 30);
    let c = zalloc_block(&mut heap, 7);
    assert!(heap.can_free(b));
    free(&mut heap, b);
    assert!(heap.can_zalloc(30));
    let again = zalloc_block(&mut heap, 30);
    assert_eq!(again, b);
    for x in again..again + 32 {
        assert_eq!(heap.byte_at(x), 0);
    }
    assert_eq!(header(&heap, b - START - 8), (33, b));
    assert_eq!(header(&heap, a - START - 8), (13, a));
    assert_eq!(header(&heap, c - START - 8), (9, c));
}
