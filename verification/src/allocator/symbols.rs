//! Bounds of the heap region that the linker script reserves.
use vstd::prelude::*;
use crate::allocator::memory::Heap;

verus! {

/// First address past the heap: its start plus its size.
pub fn get_heap_end(heap: &Heap) -> (end: usize)
    requires
        heap.wf(),
    ensures
        end == heap.heap_start() + heap.heap_size(),
{
    proof {
        heap.lemma_wf();
    }
    heap.start() + heap.size()
}

} // verus!
