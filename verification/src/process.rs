//! Process control blocks: the saved register context, the stack taken
//! from the heap, and the process identifier.
use vstd::prelude::*;
use crate::allocator::memory::{free, free_safe, zalloc_block, Heap, HEADER_SIZE};
use crate::allocator::memory::{block_fits, align4, ready_zalloc_addr, ready_zalloc_bytes};
use crate::scheduler::{Scheduler, SCHEDULE_NODE_SIZE, ScheduleList};

verus! {

/// Bytes of stack given to each user process.
pub const STACK_SIZE: u16 = 328;

/// Reset value of the link register.
pub const LR_RESET: usize = 0xFFFF_FFFF;

/// xPSR with the Thumb bit set.
pub const XPSR_THUMB: usize = 0x0100_0000;

/// CONTROL value that selects the process stack pointer.
pub const CONTROL_PSP: usize = 0x2;

/// Registers saved for a process.
#[derive(Clone, Copy)]
pub struct Context {
    /// R0 to R7.
    pub general_regs: [usize; 8],
    pub curr_sp: usize,
    pub lr: usize,
    pub pc: usize,
    /// PSR, PRIMASK, CONTROL.
    pub flags_regs: [usize; 3],
}

#[derive(Clone, Copy, Debug, PartialEq, Eq, Structural)]
pub enum ProcessState {
    Running,
    Ready,
    Waiting,
    Terminated,
}

#[derive(Clone, Copy)]
pub struct Process {
    pub ctx: Context,
    /// Top of the process stack (stacks grow downwards); 0 for the kernel
    /// process, which runs on the main stack.
    pub stack_base: usize,
    pub state: ProcessState,
    pub pid: u16,
}

/// Builder that creates processes and queues them for scheduling.
pub struct ProcessSpawner;

/// The context a user process starts from: zeroed general registers, the
/// stack pointer at the top of its stack, the reset link register, the
/// entry point as program counter, and xPSR with the Thumb bit, PRIMASK
/// clear and CONTROL selecting the process stack.
pub open spec fn is_user_context(c: Context, func_addr: usize, stack_base: usize) -> bool {
    &&& c.general_regs@ == Seq::new(8, |i: int| 0usize)
    &&& c.curr_sp == stack_base
    &&& c.lr == LR_RESET
    &&& c.pc == func_addr
    &&& c.flags_regs@ == seq![XPSR_THUMB, 0usize, CONTROL_PSP]
}

/// The context of the kernel process: as a user context but with stack
/// pointer 0 and CONTROL 0, so that it keeps running on the main stack.
pub open spec fn is_kernel_context(c: Context, func_addr: usize) -> bool {
    &&& c.general_regs@ == Seq::new(8, |i: int| 0usize)
    &&& c.curr_sp == 0
    &&& c.lr == LR_RESET
    &&& c.pc == func_addr
    &&& c.flags_regs@ == seq![XPSR_THUMB, 0usize, 0usize]
}

/// Whether dropping `p` can release its stack: its stack top lies at least
/// a stack above address 0 and freeing the block below it is safe.
pub open spec fn stack_release_safe(heap: &Heap, p: Process) -> bool {
    &&& p.stack_base >= STACK_SIZE
    &&& free_safe(heap.bytes(), heap.heap_size(), heap.heap_start(), p.stack_base - STACK_SIZE)
}

impl Context {
    pub fn new_default(func_addr: usize, stack_base: usize) -> (c: Context)
        ensures
            is_user_context(c, func_addr, stack_base),
    {
        let control: usize = 1 << 1;
        let xpsr: usize = 1 << 24;
        assert(control == 2) by (bit_vector)
            requires
                control == 1usize << 1usize,
        ;
        assert(xpsr == 0x0100_0000) by (bit_vector)
            requires
                xpsr == 1usize << 24usize,
        ;
        let freg: [usize; 3] = [xpsr, 0, control];
        let c = Context {
            general_regs: [0; 8],
            flags_regs: freg,
            curr_sp: stack_base,
            lr: LR_RESET,
            pc: func_addr,
        };
        proof {
            assert(c.general_regs@ =~= Seq::new(8, |i: int| 0usize));
            assert(c.flags_regs@ =~= seq![XPSR_THUMB, 0usize, CONTROL_PSP]);
        }
        c
    }

    pub fn new_kernel(func_addr: usize) -> (c: Context)
        ensures
            is_kernel_context(c, func_addr),
    {
        let xpsr: usize = 1 << 24;
        assert(xpsr == 0x0100_0000) by (bit_vector)
            requires
                xpsr == 1usize << 24usize,
        ;
        let freg: [usize; 3] = [xpsr, 0, 0];
        let c = Context { general_regs: [0; 8], flags_regs: freg, curr_sp: 0, lr: LR_RESET, pc: func_addr };
        proof {
            assert(c.general_regs@ =~= Seq::new(8, |i: int| 0usize));
            assert(c.flags_regs@ =~= seq![XPSR_THUMB, 0usize, 0usize]);
        }
        c
    }
}

impl Process {
    pub fn spawner() -> ProcessSpawner {
        ProcessSpawner
    }

    /// A ready user process for the entry point `func_addr`, with a fresh
    /// stack of `STACK_SIZE` bytes from the heap and the next process id.
    /// Its stack top is the block's address plus `STACK_SIZE` (so
    /// `STACK_SIZE` itself when the heap is not prepared and the block
    /// address is 0).
    pub fn new(heap: &mut Heap, new_pid: &mut u16, func_addr: usize) -> (p: Process)
        requires
            old(heap).wf(),
            old(heap).can_zalloc_block(STACK_SIZE),
            *old(new_pid) < u16::MAX,
        ensures
            final(heap).wf(),
            final(heap).heap_start() == old(heap).heap_start(),
            final(heap).heap_size() == old(heap).heap_size(),
            final(heap).is_ready() == old(heap).is_ready(),
            final(heap).bytes() == old(heap).zalloc_block_bytes(STACK_SIZE),
            p.stack_base == old(heap).zalloc_block_addr(STACK_SIZE) + STACK_SIZE,
            is_user_context(p.ctx, func_addr, p.stack_base),
            p.state == ProcessState::Ready,
            p.pid == *old(new_pid),
            *final(new_pid) == *old(new_pid) + 1,
    {
        proof {
            old(heap).lemma_wf();
        }
        let block = zalloc_block(heap, STACK_SIZE);
        let stack_base = block + STACK_SIZE as usize;
        let proc = Process {
            ctx: Context::new_default(func_addr, stack_base),
            stack_base: stack_base,
            state: ProcessState::Ready,
            pid: *new_pid,
        };
        *new_pid = *new_pid + 1;
        proc
    }

    /// The ready kernel process for `func_addr`: no stack of its own, the
    /// next process id.
    pub fn new_kernel_proc(new_pid: &mut u16, func_addr: usize) -> (p: Process)
        requires
            *old(new_pid) < u16::MAX,
        ensures
            p.stack_base == 0,
            is_kernel_context(p.ctx, func_addr),
            p.state == ProcessState::Ready,
            p.pid == *old(new_pid),
            *final(new_pid) == *old(new_pid) + 1,
    {
        let proc = Process {
            ctx: Context::new_kernel(func_addr),
            stack_base: 0,
            state: ProcessState::Ready,
            pid: *new_pid,
        };
        *new_pid = *new_pid + 1;
        proc
    }

    /// Queues the process at the tail of the list, in a scheduling node of
    /// `SCHEDULE_NODE_SIZE` bytes taken from the heap; the first node queued
    /// becomes the head and the current node. The heap must be prepared (the
    /// node is written through the block address).
    pub fn enqueue(self, heap: &mut Heap, sched: &mut Scheduler)
        requires
            old(heap).wf(),
            old(heap).is_ready(),
            old(heap).can_zalloc_block(SCHEDULE_NODE_SIZE),
            old(sched).wf(),
            old(sched).nodes().len() + 1 < usize::MAX,
        ensures
            final(heap).wf(),
            final(heap).heap_start() == old(heap).heap_start(),
            final(heap).heap_size() == old(heap).heap_size(),
            final(heap).is_ready(),
            final(heap).bytes() == old(heap).zalloc_block_bytes(SCHEDULE_NODE_SIZE),
            final(sched).wf(),
            final(sched).procs() == old(sched).procs().push(self),
            final(sched).chain() == old(sched).chain().push(old(sched).nodes().len() as usize),
            final(sched).nodes().len() == old(sched).nodes().len() + 1,
            final(sched).nodes()[old(sched).nodes().len() as int].proc == self,
            final(sched).nodes()[old(sched).nodes().len() as int].next is None,
            final(sched).nodes()[old(sched).nodes().len() as int].addr == old(
                heap,
            ).zalloc_block_addr(SCHEDULE_NODE_SIZE),
            old(sched).head() is None ==> final(sched).head() == Some(
                old(sched).nodes().len() as usize,
            ),
            old(sched).head() is None ==> final(sched).current() == old(sched).nodes().len(),
            old(sched).head() is Some ==> final(sched).head() == old(sched).head()
                && final(sched).current() == old(sched).current(),
            final(sched).running() == old(sched).running(),
    {
        let node = zalloc_block(heap, SCHEDULE_NODE_SIZE);
        sched.append(self, node);
    }

    /// What dropping a process does: the heap block below its stack top is
    /// freed.
    pub fn release(&self, heap: &mut Heap)
        requires
            old(heap).wf(),
            stack_release_safe(old(heap), *self),
        ensures
            final(heap).wf(),
            final(heap).heap_start() == old(heap).heap_start(),
            final(heap).heap_size() == old(heap).heap_size(),
            final(heap).is_ready() == old(heap).is_ready(),
            final(heap).bytes() == crate::allocator::memory::after_free(
                old(heap).bytes(),
                old(heap).heap_start(),
                self.stack_base - STACK_SIZE,
            ),
    {
        let bottom_stack: usize = self.stack_base - STACK_SIZE as usize;
        free(heap, bottom_stack);
    }
}

impl ProcessSpawner {
    /// Whether `new` may be called: the heap is prepared and can give a
    /// stack and then a scheduling node, and the node and id counters have
    /// room.
    pub fn can_new(heap: &Heap, sched: &Scheduler, new_pid: u16) -> (r: bool)
        requires
            heap.wf(),
            sched.wf(),
        ensures
            r == (heap.is_ready() && heap.can_zalloc_block(STACK_SIZE) && block_fits(
                heap.zalloc_block_bytes(STACK_SIZE),
                heap.heap_size(),
                align4(SCHEDULE_NODE_SIZE as int),
            ) && sched.nodes().len() + 1 < usize::MAX && new_pid < u16::MAX),
    {
        if !heap.ready() || !heap.can_zalloc(STACK_SIZE) {
            return false;
        }
        let mut after = heap.duplicate();
        let _ = zalloc_block(&mut after, STACK_SIZE);
        after.can_zalloc(SCHEDULE_NODE_SIZE) && sched.node_count() < usize::MAX - 1 && new_pid
            < u16::MAX
    }

    /// Whether `new_kernel` may be called: the heap is prepared and can give
    /// a scheduling node, and the node and id counters have room.
    pub fn can_new_kernel(heap: &Heap, sched: &Scheduler, new_pid: u16) -> (r: bool)
        requires
            heap.wf(),
            sched.wf(),
        ensures
            r == (heap.is_ready() && heap.can_zalloc_block(SCHEDULE_NODE_SIZE)
                && sched.nodes().len() + 1 < usize::MAX && new_pid < u16::MAX),
    {
        heap.ready() && heap.can_zalloc(SCHEDULE_NODE_SIZE) && sched.node_count() < usize::MAX - 1
            && new_pid < u16::MAX
    }

    /// Creates a user process for `func_addr` and queues it; hands the
    /// builder back.
    pub fn new(
        self,
        heap: &mut Heap,
        sched: &mut Scheduler,
        new_pid: &mut u16,
        func_addr: usize,
    ) -> (s: ProcessSpawner)
        requires
            old(heap).wf(),
            old(heap).is_ready(),
            old(heap).can_zalloc_block(STACK_SIZE),
            block_fits(
                old(heap).zalloc_block_bytes(STACK_SIZE),
                old(heap).heap_size(),
                align4(SCHEDULE_NODE_SIZE as int),
            ),
            old(sched).wf(),
            old(sched).nodes().len() + 1 < usize::MAX,
            *old(new_pid) < u16::MAX,
        ensures
            final(heap).wf(),
            final(heap).is_ready(),
            final(heap).heap_start() == old(heap).heap_start(),
            final(heap).heap_size() == old(heap).heap_size(),
            final(heap).bytes() == ready_zalloc_bytes(
                old(heap).zalloc_block_bytes(STACK_SIZE),
                old(heap).heap_size(),
                old(heap).heap_start(),
                SCHEDULE_NODE_SIZE,
            ),
            final(sched).wf(),
            final(sched).procs().len() == old(sched).procs().len() + 1,
            final(sched).procs().drop_last() == old(sched).procs(),
            final(sched).procs().last().pid == *old(new_pid),
            final(sched).procs().last().state == ProcessState::Ready,
            final(sched).procs().last().stack_base == old(heap).zalloc_block_addr(STACK_SIZE)
                + STACK_SIZE,
            final(sched).nodes().last().addr == ready_zalloc_addr(
                old(heap).zalloc_block_bytes(STACK_SIZE),
                old(heap).heap_size(),
                old(heap).heap_start(),
                SCHEDULE_NODE_SIZE,
            ),
            is_user_context(
                final(sched).procs().last().ctx,
                func_addr,
                final(sched).procs().last().stack_base,
            ),
            *final(new_pid) == *old(new_pid) + 1,
            final(sched).running() == old(sched).running(),
    {
        let p = Process::new(heap, new_pid, func_addr);
        p.enqueue(heap, sched);
        proof {
            assert(sched.procs().drop_last() =~= old(sched).procs());
        }
        self
    }

    /// Creates the kernel process for `func_addr`, queues it, and makes a
    /// copy of the head node the running one.
    pub fn new_kernel(self, heap: &mut Heap, sched: &mut Scheduler, new_pid: &mut u16, func_addr: usize)
        requires
            old(heap).wf(),
            old(heap).is_ready(),
            old(heap).can_zalloc_block(SCHEDULE_NODE_SIZE),
            old(sched).wf(),
            old(sched).nodes().len() + 1 < usize::MAX,
            *old(new_pid) < u16::MAX,
        ensures
            final(heap).wf(),
            final(heap).is_ready(),
            final(heap).heap_start() == old(heap).heap_start(),
            final(heap).heap_size() == old(heap).heap_size(),
            final(heap).bytes() == old(heap).zalloc_block_bytes(SCHEDULE_NODE_SIZE),
            final(sched).wf(),
            final(sched).procs().len() == old(sched).procs().len() + 1,
            final(sched).procs().drop_last() == old(sched).procs(),
            final(sched).procs().last().pid == *old(new_pid),
            final(sched).procs().last().stack_base == 0,
            final(sched).procs().last().state == ProcessState::Ready,
            is_kernel_context(final(sched).procs().last().ctx, func_addr),
            *final(new_pid) == *old(new_pid) + 1,
            final(sched).head() is Some,
            final(sched).running() == Some(final(sched).nodes()[final(sched).head().unwrap() as int]),
    {
        let p = Process::new_kernel_proc(new_pid, func_addr);
        p.enqueue(heap, sched);
        sched.load_head();
        proof {
            assert(sched.procs().drop_last() =~= old(sched).procs());
        }
    }
}

} // verus!
