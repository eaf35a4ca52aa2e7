use m0_kernel::allocator::memory::{FreeList, Heap};
use m0_kernel::process::{Context, Process, ProcessState, STACK_SIZE};
use m0_kernel::scheduler::Scheduler;

const START: usize = 0x2000_0000;

fn ready_heap(size: usize) -> Heap {
    let mut heap = Heap::new(START, size);
    FreeList::init(&mut heap);
    heap
}

#[test]
fn user_context_starts_at_entry_point() {
    let c = Context::new_default(0x0800_0101, 0x2000_0400);
    assert_eq!(c.general_regs, [0; 8]);
    assert_eq!(c.curr_sp, 0x2000_0400);
    assert_eq!(c.lr, 0xFFFF_FFFF);
    assert_eq!(c.pc, 0x0800_0101);
    assert_eq!(c.flags_regs, [1 << 24, 0, 2]);
}

#[test]
fn kernel_context_keeps_main_stack() {
    let c = Context::new_kernel(0x0800_0201);
    assert_eq!(c.general_regs, [0; 8]);
    assert_eq!(c.curr_sp, 0);
    assert_eq!(c.lr, 0xFFFF_FFFF);
    assert_eq!(c.pc, 0x0800_0201);
    assert_eq!(c.flags_regs, [1 << 24, 0, 0]);
}

#[test]
fn new_process_gets_stack_and_next_pid() {
    let mut heap = ready_heap(1024);
    let mut pid: u16 = 1;
    assert!(heap.can_zalloc(STACK_SIZE));
    let p = Process::new(&mut heap, &mut pid, 0x0800_1000);
    assert_eq!(p.pid, 1);
    assert_eq!(pid, 2);
    assert_eq!(p.stack_base, START + 8 + 328);
    assert_eq!(p.ctx.curr_sp, p.stack_base);
    assert_eq!(p.ctx.pc, 0x0800_1000);
    assert_eq!(p.state, ProcessState::Ready);
    // The stack block is in use.
    assert_eq!(heap.header_at(START).size, 329);
    let q = Process::new(&mut heap, &mut pid, 0x0800_2000);
    assert_eq!(q.pid, 2);
    assert_eq!(pid, 3);
    assert_ne!(q.stack_base, p.stack_base);
}

#[test]
fn process_on_unprepared_heap_has_stack_at_stack_size() {
    let mut heap = Heap::new(START, 1024);
    let mut pid: u16 = 7;
    let p = Process::new(&mut heap, &mut pid, 0x10);
    assert_eq!(p.stack_base, 328);
    assert_eq!(p.pid, 7);
}

#[test]
fn kernel_process_has_no_stack() {
    let mut pid: u16 = 5;
    let p = Process::new_kernel_proc(&mut pid, 0x0800_0300);
    assert_eq!(p.stack_base, 0);
    assert_eq!(p.pid, 5);
    assert_eq!(pid, 6);
    assert_eq!(p.ctx.pc, 0x0800_0300);
}

#[test]
fn releasing_a_process_frees_its_stack() {
    let mut heap = ready_heap(1024);
    let mut pid: u16 = 1;
    let p = Process::new(&mut heap, &mut pid, 0x0800_1000);
    assert_eq!(heap.header_at(START).size, 329);
    p.release(&mut heap);
    assert_eq!(heap.header_at(START).size, 328);
}

fn pids(s: &Scheduler) -> Vec<u16> {
    s.process_list().iter().map(|p| p.pid).collect()
}

#[test]
fn spawner_queues_in_order() {
    let mut heap = ready_heap(4096);
    let mut sched = Scheduler::new();
    let mut pid: u16 = 1;
    Process::spawner()
        .new(&mut heap, &mut sched, &mut pid, 0x100)
        .new(&mut heap, &mut sched, &mut pid, 0x200);
    assert_eq!(pids(&sched), vec![1, 2]);
    let list = sched.process_list();
    assert_eq!(list[0].ctx.pc, 0x100);
    assert_eq!(list[1].ctx.pc, 0x200);
    assert!(sched.running_process().is_none());
}

#[test]
fn round_robin_scheduling() {
    let mut heap = ready_heap(4096);
    let mut sched = Scheduler::new();
    let mut pid: u16 = 1;
    Process::spawner().new_kernel(&mut heap, &mut sched, &mut pid, 0x100);
    assert_eq!(sched.running_process().unwrap().pid, 1);
    Process::spawner()
        .new(&mut heap, &mut sched, &mut pid, 0x200)
        .new(&mut heap, &mut sched, &mut pid, 0x300);
    assert_eq!(pids(&sched), vec![1, 2, 3]);

    // The first switch goes back to the head.
    sched.next_proc(true);
    let r = sched.running_process().unwrap();
    assert_eq!(r.pid, 1);
    assert_eq!(r.state, ProcessState::Running);

    let mut order = Vec::new();
    for _ in 0..6 {
        sched.next_proc(false);
        order.push(sched.running_process().unwrap().pid);
    }
    assert_eq!(order, vec![2, 3, 1, 2, 3, 1]);
    // Processes written back into the list are marked ready.
    for p in sched.process_list() {
        assert_eq!(p.state, ProcessState::Ready);
    }
}

#[test]
fn a_turn_runs_every_process_once() {
    let mut heap = ready_heap(8192);
    let mut sched = Scheduler::new();
    let mut pid: u16 = 1;
    Process::spawner().new_kernel(&mut heap, &mut sched, &mut pid, 0x100);
    Process::spawner()
        .new(&mut heap, &mut sched, &mut pid, 0x200)
        .new(&mut heap, &mut sched, &mut pid, 0x300)
        .new(&mut heap, &mut sched, &mut pid, 0x400);
    sched.next_proc(true);
    sched.next_proc(false);
    sched.next_proc(false);
    assert_eq!(sched.running_process().unwrap().pid, 3);
    let mut turn = Vec::new();
    for _ in 0..4 {
        sched.next_proc(false);
        let r = sched.running_process().unwrap();
        assert_eq!(r.state, ProcessState::Running);
        turn.push(r.pid);
    }
    assert_eq!(turn, vec![4, 1, 2, 3]);
}
