//! The shell commands that change the process list.
use vstd::prelude::*;
use crate::allocator::memory::{after_free, block_fits, align4, ready_zalloc_bytes, Heap};
use crate::process::{is_user_context, stack_release_safe, Process, ProcessState, STACK_SIZE};
use crate::scheduler::{pid_position, ScheduleList, Scheduler, SCHEDULE_NODE_SIZE};
use crate::shell::ShellError;
use crate::tasks::dispatcher::{first_match, is_registered, FunctionTable, ProcessIdentifier, TABLE_CAPACITY};
use crate::trap::critical_section::CriticalSection;

verus! {

/// Position in the list of the first process with id `pid` (the list's
/// length when there is none).
pub open spec fn pid_pos(s: &Scheduler, pid: u16) -> int {
    pid_position(s.nodes(), s.chain(), pid)
}

/// Whether `rm_proc_by_pid(pid)` removes a process: one with that id is
/// listed, and it is not the head.
pub open spec fn removable(s: &Scheduler, pid: u16) -> bool {
    0 < pid_pos(s, pid) < s.chain().len()
}

/// The process whose stack `rm_proc_by_pid(pid)` releases: the removed one
/// when a node follows it, and the one listed before it when it was the
/// tail.
pub open spec fn released_proc(s: &Scheduler, pid: u16) -> Process {
    let k = pid_pos(s, pid);
    if k == s.chain().len() - 1 {
        s.nodes()[s.chain()[k - 1] as int].proc
    } else {
        s.nodes()[s.chain()[k] as int].proc
    }
}

/// The walk of `rm_proc_by_pid`: from the head, the first node whose
/// process has id `pid` (`None` past the tail) and the node visited before
/// it (the head when the walk stopped at once).
fn locate_pid(sched: &Scheduler, pid: u16) -> (r: (Option<usize>, usize))
    requires
        sched.wf(),
        sched.head() is Some,
    ensures
        ({
            let chain = sched.chain();
            let target = pid_position(sched.nodes(), chain, pid);
            &&& target < chain.len() ==> r.0 == Some(chain[target])
            &&& target == chain.len() ==> r.0 is None
            &&& target > 0 ==> r.1 == chain[target - 1]
            &&& target == 0 ==> r.1 == chain[0]
        }),
{
    let ghost nodes = sched.nodes();
    let ghost chain = sched.chain();
    let ghost target = pid_position(nodes, chain, pid);
    proof {
        crate::scheduler::lemma_pid_position(nodes, chain, pid);
        sched.lemma_wf();
    }
    let head = sched.head_index().unwrap();
    let mut ptr_tmp: Option<usize> = Some(head);
    let mut prec: usize = head;
    let ghost mut pos: int = 0;
    loop
        invariant
            sched.wf(),
            sched.nodes() == nodes,
            sched.chain() == chain,
            chain.len() > 0,
            head == chain[0],
            crate::scheduler::is_chain(nodes, chain),
            0 <= target <= chain.len(),
            forall|j: int| 0 <= j < target ==> nodes[#[trigger] chain[j] as int].proc.pid != pid,
            target < chain.len() ==> nodes[chain[target] as int].proc.pid == pid,
            0 <= pos <= target,
            pos < chain.len() ==> ptr_tmp == Some(chain[pos]),
            pos == chain.len() ==> ptr_tmp is None,
            pos > 0 ==> prec == chain[pos - 1],
            pos == 0 ==> prec == head,
        ensures
            pos == target,
            target < chain.len() ==> ptr_tmp == Some(chain[target]),
            target == chain.len() ==> ptr_tmp is None,
            target > 0 ==> prec == chain[target - 1],
        decreases chain.len() - pos,
    {
        match ptr_tmp {
            None => {
                break ;
            },
            Some(p) => {
                let node = sched.node_at(p);
                if node.proc.pid == pid {
                    break ;
                }
                prec = p;
                ptr_tmp = node.next;
                proof {
                    if pos < chain.len() - 1 {
                        assert(nodes[chain[pos] as int].next == Some(chain[pos + 1]));
                    } else {
                        assert(nodes[chain.last() as int].next is None);
                    }
                    pos = pos + 1;
                }
            },
        }
    }
    (ptr_tmp, prec)
}

/// The stack top of the process that `rm_proc_by_pid(pid)` would release,
/// when it removes one.
pub fn released_stack(sched: &Scheduler, pid: u16) -> (r: Option<usize>)
    requires
        sched.wf(),
        sched.head() is Some,
    ensures
        r is Some <==> removable(sched, pid),
        r is Some ==> r.unwrap() == released_proc(sched, pid).stack_base,
{
    let ghost nodes = sched.nodes();
    let ghost chain = sched.chain();
    let ghost target = pid_position(nodes, chain, pid);
    proof {
        crate::scheduler::lemma_pid_position(nodes, chain, pid);
        sched.lemma_wf();
    }
    let head = sched.head_index().unwrap();
    let (ptr_tmp, prec) = locate_pid(sched, pid);
    match ptr_tmp {
        None => None,
        Some(p) => {
            if p == head {
                proof {
                    if target > 0 {
                        assert(chain[target] != chain[0]);
                    }
                }
                None
            } else {
                let node = sched.node_at(p);
                proof {
                    if target < chain.len() - 1 {
                        assert(nodes[chain[target] as int].next == Some(chain[target + 1]));
                    } else {
                        assert(nodes[chain.last() as int].next is None);
                    }
                }
                if node.next.is_none() {
                    Some(sched.node_at(prec).proc.stack_base)
                } else {
                    Some(node.proc.stack_base)
                }
            }
        },
    }
}

/// Whether `rm_proc_by_pid(pid)` may be called: the process list exists
/// and, when a process is removed, the stack it releases can be freed.
pub fn can_rm_proc_by_pid(sched: &Scheduler, heap: &Heap, pid: u16) -> (r: bool)
    requires
        sched.wf(),
        heap.wf(),
    ensures
        r == (sched.head() is Some && (removable(sched, pid) ==> stack_release_safe(
            heap,
            released_proc(sched, pid),
        ))),
{
    if sched.head_index().is_none() {
        return false;
    }
    match released_stack(sched, pid) {
        None => true,
        Some(sb) => sb >= STACK_SIZE as usize && heap.can_free(sb - STACK_SIZE as usize),
    }
}

/// Removes the first listed process with id `pid`, unless it is the head.
/// When that process was the tail of the list, the node before it is linked
/// to nothing and the stack of that previous process is released;
/// otherwise the node before it is linked to the node after it and the
/// removed process's stack is released. Fails with `ExecutionError`, changing
/// nothing, when no listed process has the id or when it is the head.
pub fn rm_proc_by_pid(
    pid: u16,
    _cs: &CriticalSection,
    sched: &mut Scheduler,
    heap: &mut Heap,
) -> (r: Result<(), ShellError>)
    requires
        old(sched).wf(),
        old(sched).head() is Some,
        old(heap).wf(),
        removable(old(sched), pid) ==> stack_release_safe(old(heap), released_proc(old(sched), pid)),
    ensures
        final(sched).wf(),
        final(heap).wf(),
        removable(old(sched), pid) ==> {
            &&& r is Ok
            &&& final(sched).chain() == old(sched).chain().remove(pid_pos(old(sched), pid))
            &&& final(sched).procs() == old(sched).procs().remove(pid_pos(old(sched), pid))
            &&& final(sched).nodes() == old(sched).nodes().update(
                old(sched).chain()[pid_pos(old(sched), pid) - 1] as int,
                ScheduleList {
                    next: old(sched).nodes()[old(sched).chain()[pid_pos(old(sched), pid)] as int].next,
                    ..old(sched).nodes()[old(sched).chain()[pid_pos(old(sched), pid) - 1] as int]
                },
            )
            &&& final(sched).head() == old(sched).head()
            &&& final(sched).current() == old(sched).current()
            &&& final(sched).running() == old(sched).running()
            &&& final(heap).heap_start() == old(heap).heap_start()
            &&& final(heap).heap_size() == old(heap).heap_size()
            &&& final(heap).is_ready() == old(heap).is_ready()
            &&& final(heap).bytes() == after_free(
                old(heap).bytes(),
                old(heap).heap_start(),
                released_proc(old(sched), pid).stack_base - STACK_SIZE,
            )
        },
        !removable(old(sched), pid) ==> {
            &&& r == Err::<(), ShellError>(ShellError::ExecutionError)
            &&& *final(sched) == *old(sched)
            &&& *final(heap) == *old(heap)
        },
{
    let ghost nodes = sched.nodes();
    let ghost chain = sched.chain();
    let ghost target = pid_position(nodes, chain, pid);
    proof {
        crate::scheduler::lemma_pid_position(nodes, chain, pid);
        sched.lemma_wf();
    }
    let head = sched.head_index().unwrap();
    let (ptr_tmp, prec) = locate_pid(sched, pid);
    match ptr_tmp {
        None => Err(ShellError::ExecutionError),
        Some(p) => {
            if p == head {
                proof {
                    assert(target == 0) by {
                        if target > 0 {
                            assert(chain[target] != chain[0]);
                        }
                    }
                }
                Err(ShellError::ExecutionError)
            } else {
                assert(target > 0);
                let node = sched.node_at(p);
                if node.next.is_none() {
                    proof {
                        if target < chain.len() - 1 {
                            assert(nodes[chain[target] as int].next == Some(chain[target + 1]));
                        }
                    }
                    let prev_proc = sched.node_at(prec).proc;
                    sched.unlink(prec, Ghost(target));
                    prev_proc.release(heap);
                } else {
                    proof {
                        if target == chain.len() - 1 {
                            assert(nodes[chain.last() as int].next is None);
                        }
                    }
                    sched.unlink(prec, Ghost(target));
                    node.proc.release(heap);
                }
                Ok(())
            }
        },
    }
}

/// Removal by name is accepted and does nothing.
pub fn rm_proc_by_name(name: Vec<char>, _cs: &CriticalSection) -> (r: Result<(), ShellError>)
    ensures
        r is Ok,
{
    Ok(())
}

/// Whether `add_proc` with this name can run: the lookup does not panic
/// (the name is registered or the table is full), and when the name is
/// registered the heap can give a stack and then a scheduling node.
pub open spec fn add_proc_safe(
    heap: &Heap,
    sched: &Scheduler,
    table: &FunctionTable,
    new_pid: u16,
    name: Seq<char>,
) -> bool {
    &&& is_registered(table@, name) || table@.len() == TABLE_CAPACITY
    &&& is_registered(table@, name) ==> {
        &&& heap.is_ready()
        &&& heap.can_zalloc_block(STACK_SIZE)
        &&& block_fits(
            heap.zalloc_block_bytes(STACK_SIZE),
            heap.heap_size(),
            align4(SCHEDULE_NODE_SIZE as int),
        )
        &&& sched.nodes().len() + 1 < usize::MAX
        &&& new_pid < u16::MAX
    }
}

/// Whether `add_proc` may be called with this name.
pub fn can_add_proc(
    heap: &Heap,
    sched: &Scheduler,
    table: &FunctionTable,
    new_pid: u16,
    proc_name: &[char],
) -> (r: bool)
    requires
        heap.wf(),
        sched.wf(),
        table.wf(),
    ensures
        r == add_proc_safe(heap, sched, table, new_pid, proc_name@),
{
    if !table.contains(proc_name) {
        return table.len() == TABLE_CAPACITY;
    }
    if !heap.ready() || !heap.can_zalloc(STACK_SIZE) {
        return false;
    }
    let mut after = heap.duplicate();
    let _ = crate::allocator::memory::zalloc_block(&mut after, STACK_SIZE);
    if !after.can_zalloc(SCHEDULE_NODE_SIZE) {
        return false;
    }
    proof {
        sched.lemma_wf();
    }
    sched.node_count() + 1 < usize::MAX && new_pid < u16::MAX
}

/// Starts the process registered under `proc_name`: a new user process for
/// its address is created and queued. Fails with `ExecutionError`, changing
/// nothing, when no entry has that name.
pub fn add_proc(
    _cs: &CriticalSection,
    proc_name: &[char],
    heap: &mut Heap,
    sched: &mut Scheduler,
    table: &FunctionTable,
    new_pid: &mut u16,
) -> (r: Result<(), ShellError>)
    requires
        old(heap).wf(),
        old(sched).wf(),
        table.wf(),
        add_proc_safe(old(heap), old(sched), table, *old(new_pid), proc_name@),
    ensures
        final(heap).wf(),
        final(sched).wf(),
        !is_registered(table@, proc_name@) ==> {
            &&& r == Err::<(), ShellError>(ShellError::ExecutionError)
            &&& *final(heap) == *old(heap)
            &&& *final(sched) == *old(sched)
            &&& *final(new_pid) == *old(new_pid)
        },
        is_registered(table@, proc_name@) ==> {
            &&& r is Ok
            &&& final(sched).procs().drop_last() == old(sched).procs()
            &&& final(sched).procs().len() == old(sched).procs().len() + 1
            &&& final(sched).procs().last().pid == *old(new_pid)
            &&& final(sched).procs().last().ctx.pc == first_match(table@, proc_name@).unwrap()
            &&& is_user_context(
                final(sched).procs().last().ctx,
                first_match(table@, proc_name@).unwrap(),
                final(sched).procs().last().stack_base,
            )
            &&& final(sched).procs().last().state == ProcessState::Ready
            &&& final(sched).procs().last().stack_base == old(heap).zalloc_block_addr(STACK_SIZE)
                + STACK_SIZE
            &&& *final(new_pid) == *old(new_pid) + 1
            &&& final(sched).chain() == old(sched).chain().push(old(sched).nodes().len() as usize)
            &&& final(sched).nodes().len() == old(sched).nodes().len() + 1
            &&& old(sched).head() is None ==> final(sched).head() == Some(
                old(sched).nodes().len() as usize,
            ) && final(sched).current() == old(sched).nodes().len()
            &&& old(sched).head() is Some ==> final(sched).head() == old(sched).head()
                && final(sched).current() == old(sched).current()
            &&& final(sched).running() == old(sched).running()
            &&& final(heap).heap_start() == old(heap).heap_start()
            &&& final(heap).heap_size() == old(heap).heap_size()
            &&& final(heap).bytes() == ready_zalloc_bytes(
                old(heap).zalloc_block_bytes(STACK_SIZE),
                old(heap).heap_size(),
                old(heap).heap_start(),
                SCHEDULE_NODE_SIZE,
            )
        },
{
    let func = match ProcessIdentifier::retrieve_base_address(table, proc_name) {
        Some(f) => f,
        None => {
            return Err(ShellError::ExecutionError);
        },
    };
    let p = Process::new(heap, new_pid, func);
    p.enqueue(heap, sched);
    proof {
        assert(sched.procs().drop_last() =~= old(sched).procs());
    }
    Ok(())
}

} // verus!
