//! The round-robin process list.
//!
//! Scheduling nodes are never given back once queued, so they are kept in
//! an arena; a node's index there stands for its address, and `next` links
//! hold indices. The list is the chain of nodes reached from `head`.
use vstd::prelude::*;
use crate::process::{Process, ProcessState};

verus! {

/// Bytes of a scheduling node on the 32-bit target: the process control
/// block (68 bytes) and the link to the next node.
pub const SCHEDULE_NODE_SIZE: u16 = 72;

/// A scheduling node: a process, the link to the next node (`None` at the
/// tail), and the heap address the node was given.
#[derive(Clone, Copy)]
pub struct ScheduleList {
    pub proc: Process,
    pub next: Option<usize>,
    pub addr: usize,
}

/// The process list and the copy of the node that is running.
pub struct Scheduler {
    nodes: Vec<ScheduleList>,
    head: Option<usize>,
    current: usize,
    running: Option<ScheduleList>,
    chain: Ghost<Seq<usize>>,
}

/// Whether `chain` lists, from the head, the nodes linked by `next`: each
/// node links to the one after it and the last one links nowhere; no node
/// appears twice.
pub open spec fn is_chain(nodes: Seq<ScheduleList>, chain: Seq<usize>) -> bool {
    &&& forall|k: int| 0 <= k < chain.len() ==> #[trigger] chain[k] < nodes.len()
    &&& forall|k: int|
        0 <= k < chain.len() - 1 ==> nodes[#[trigger] chain[k] as int].next == Some(chain[k + 1])
    &&& chain.len() > 0 ==> nodes[chain.last() as int].next is None
    &&& forall|i: int, j: int| 0 <= i < j < chain.len() ==> chain[i] != chain[j]
}

/// The position in `chain` of the first process with id `pid`, or the
/// chain's length when there is none.
pub open spec fn pid_position(nodes: Seq<ScheduleList>, chain: Seq<usize>, pid: u16) -> int
    decreases chain.len(),
{
    if chain.len() == 0 {
        0
    } else if nodes[chain[0] as int].proc.pid == pid {
        0
    } else {
        1 + pid_position(nodes, chain.drop_first(), pid)
    }
}

/// Where `pid_position` stops: every process before it has another id, and
/// the one there (if any) has `pid`.
pub proof fn lemma_pid_position(nodes: Seq<ScheduleList>, chain: Seq<usize>, pid: u16)
    ensures
        0 <= pid_position(nodes, chain, pid) <= chain.len(),
        forall|j: int|
            0 <= j < pid_position(nodes, chain, pid) ==> nodes[#[trigger] chain[j] as int].proc.pid
                != pid,
        pid_position(nodes, chain, pid) < chain.len() ==> nodes[chain[pid_position(
            nodes,
            chain,
            pid,
        )] as int].proc.pid == pid,
    decreases chain.len(),
{
    if chain.len() > 0 && nodes[chain[0] as int].proc.pid != pid {
        lemma_pid_position(nodes, chain.drop_first(), pid);
        assert forall|j: int| 0 <= j < pid_position(nodes, chain, pid) implies nodes[#[trigger] chain[
            j] as int].proc.pid != pid by {
            if j > 0 {
                assert(chain[j] == chain.drop_first()[j - 1]);
            }
        }
    }
}

impl Scheduler {
    pub closed spec fn wf(&self) -> bool {
        let nodes = self.nodes@;
        let chain = self.chain@;
        &&& is_chain(nodes, chain)
        &&& (self.head is None <==> chain.len() == 0)
        &&& self.head matches Some(h) ==> h == chain[0]
        &&& self.head is Some ==> self.current < nodes.len()
        &&& forall|i: int|
            0 <= i < nodes.len() ==> (#[trigger] nodes[i].next matches Some(j) ==> j < nodes.len())
        &&& nodes.len() < usize::MAX
    }

    /// The facts that `wf` stands for.
    pub proof fn lemma_wf(&self)
        requires
            self.wf(),
        ensures
            is_chain(self.nodes(), self.chain()),
            self.head() is None <==> self.chain().len() == 0,
            self.head() matches Some(h) ==> h == self.chain()[0],
            self.head() is Some ==> self.current() < self.nodes().len(),
            forall|i: int|
                0 <= i < self.nodes().len() ==> (#[trigger] self.nodes()[i].next matches Some(j)
                    ==> j < self.nodes().len()),
            self.nodes().len() < usize::MAX,
    {
    }

    /// Every node queued so far, by index.
    pub closed spec fn nodes(&self) -> Seq<ScheduleList> {
        self.nodes@
    }

    /// Indices of the listed nodes, from the head.
    pub closed spec fn chain(&self) -> Seq<usize> {
        self.chain@
    }

    pub closed spec fn head(&self) -> Option<usize> {
        self.head
    }

    /// Index of the node the running process was taken from.
    pub closed spec fn current(&self) -> usize {
        self.current
    }

    /// The copy of the running node.
    pub closed spec fn running(&self) -> Option<ScheduleList> {
        self.running
    }

    /// The listed processes, from the head.
    pub open spec fn procs(&self) -> Seq<Process> {
        self.chain().map_values(|k: usize| self.nodes()[k as int].proc)
    }

    /// No list yet and nothing running.
    pub fn new() -> (s: Scheduler)
        ensures
            s.wf(),
            s.chain() == Seq::<usize>::empty(),
            s.nodes() == Seq::<ScheduleList>::empty(),
            s.head() is None,
            s.running() is None,
    {
        Scheduler {
            nodes: Vec::new(),
            head: None,
            current: 0,
            running: None,
            chain: Ghost(Seq::empty()),
        }
    }

    /// The listed processes, from the head.
    pub fn process_list(&self) -> (v: Vec<Process>)
        requires
            self.wf(),
        ensures
            v@ == self.procs(),
    {
        let ghost chain = self.chain@;
        let ghost nodes = self.nodes@;
        let mut v: Vec<Process> = Vec::new();
        let mut cur = self.head;
        let ghost mut pos: int = 0;
        while cur.is_some()
            invariant
                self.wf(),
                chain == self.chain@,
                nodes == self.nodes@,
                is_chain(nodes, chain),
                0 <= pos <= chain.len(),
                pos < chain.len() ==> cur == Some(chain[pos]),
                pos == chain.len() ==> cur is None,
                v@ == chain.take(pos).map_values(|k: usize| nodes[k as int].proc),
            decreases chain.len() - pos,
        {
            let k = cur.unwrap();
            v.push(self.nodes[k].proc);
            proof {
                assert(chain.take(pos + 1).map_values(|k: usize| nodes[k as int].proc) =~= chain.take(
                    pos,
                ).map_values(|k: usize| nodes[k as int].proc).push(nodes[k as int].proc));
                if pos < chain.len() - 1 {
                    assert(nodes[chain[pos] as int].next == Some(chain[pos + 1]));
                } else {
                    assert(nodes[chain.last() as int].next is None);
                }
            }
            cur = self.nodes[k].next;
            proof {
                pos = pos + 1;
            }
        }
        proof {
            assert(chain.take(pos) =~= chain);
            assert(v@ =~= self.procs());
        }
        v
    }

    /// The process that is running, if any.
    pub fn running_process(&self) -> (p: Option<Process>)
        ensures
            p == (match self.running() {
                Some(n) => Some(n.proc),
                None => None,
            }),
    {
        match self.running {
            Some(n) => Some(n.proc),
            None => None,
        }
    }

    /// Number of nodes queued so far.
    pub fn node_count(&self) -> (n: usize)
        ensures
            n == self.nodes().len(),
    {
        self.nodes.len()
    }

    /// The node at index `i`.
    pub fn node_at(&self, i: usize) -> (n: ScheduleList)
        requires
            i < self.nodes().len(),
        ensures
            n == self.nodes()[i as int],
    {
        self.nodes[i]
    }

    pub fn head_index(&self) -> (h: Option<usize>)
        ensures
            h == self.head(),
    {
        self.head
    }

    /// Takes the listed node at position `k` (not the head) out of the list
    /// by linking the node before it, at index `prec`, to the node after it.
    #[verifier::rlimit(30)]
    pub(crate) fn unlink(&mut self, prec: usize, Ghost(k): Ghost<int>)
        requires
            old(self).wf(),
            0 < k < old(self).chain().len(),
            prec == old(self).chain()[k - 1],
        ensures
            final(self).wf(),
            final(self).chain() == old(self).chain().remove(k),
            final(self).nodes() == old(self).nodes().update(
                prec as int,
                ScheduleList {
                    next: old(self).nodes()[old(self).chain()[k] as int].next,
                    ..old(self).nodes()[prec as int]
                },
            ),
            final(self).head() == old(self).head(),
            final(self).current() == old(self).current(),
            final(self).running() == old(self).running(),
            final(self).procs() == old(self).procs().remove(k),
    {
        let ghost chain = self.chain@;
        let ghost old_nodes = self.nodes@;
        let target = self.nodes[prec].next.unwrap();
        assert(target == chain[k]);
        let mut p = self.nodes[prec];
        p.next = self.nodes[target].next;
        self.nodes.set(prec, p);
        proof {
            self.chain@ = chain.remove(k);
            let nodes = self.nodes@;
            let c = self.chain@;
            assert forall|j: int| 0 <= j < c.len() implies #[trigger] c[j] < nodes.len() by {
                if j < k {
                    assert(c[j] == chain[j]);
                } else {
                    assert(c[j] == chain[j + 1]);
                }
            }
            assert forall|j: int| 0 <= j < c.len() - 1 implies nodes[#[trigger] c[j] as int].next
                == Some(c[j + 1]) by {
                if j < k - 1 {
                    assert(c[j] == chain[j]);
                    assert(c[j] != prec);
                    assert(c[j + 1] == chain[j + 1]);
                } else if j == k - 1 {
                    assert(c[j] == prec);
                    assert(c[j + 1] == chain[k + 1]);
                    assert(old_nodes[chain[k] as int].next == Some(chain[k + 1]));
                } else {
                    assert(c[j] == chain[j + 1]);
                    assert(c[j] != prec);
                    assert(c[j + 1] == chain[j + 2]);
                }
            }
            if c.len() > 0 {
                if k == chain.len() - 1 {
                    assert(c.last() == prec);
                    assert(old_nodes[chain.last() as int].next is None);
                } else {
                    assert(c.last() == chain.last());
                    assert(c.last() != prec);
                }
            }
            assert forall|i: int, j: int| 0 <= i < j < c.len() implies c[i] != c[j] by {
                let i2 = if i < k { i } else { i + 1 };
                let j2 = if j < k { j } else { j + 1 };
                assert(c[i] == chain[i2]);
                assert(c[j] == chain[j2]);
            }
            assert forall|i: int| 0 <= i < nodes.len() implies (#[trigger] nodes[i].next matches Some(
                j,
            ) ==> j < nodes.len()) by {
                if i == prec {
                    assert(old_nodes[chain[k] as int].next matches Some(j) ==> j < nodes.len());
                }
            }
            assert(self.procs() =~= old(self).procs().remove(k));
        }
    }

    /// Makes a copy of the head node the running one.
    pub(crate) fn load_head(&mut self)
        requires
            old(self).wf(),
            old(self).head() is Some,
        ensures
            final(self).wf(),
            final(self).running() == Some(old(self).nodes()[old(self).head().unwrap() as int]),
            final(self).nodes() == old(self).nodes(),
            final(self).chain() == old(self).chain(),
            final(self).head() == old(self).head(),
            final(self).current() == old(self).current(),
    {
        let h = self.head.unwrap();
        self.running = Some(self.nodes[h]);
    }

    /// The context switch: the running process is marked ready and written
    /// back into its node; the next node is the current node's successor,
    /// or the head when the current node is the tail or this is the first
    /// switch; a copy of it, marked running, becomes the running node.
    pub fn next_proc(&mut self, first_ctx_switch: bool)
        requires
            old(self).wf(),
            old(self).head() is Some,
            old(self).running() is Some,
        ensures
            final(self).wf(),
            final(self).chain() == old(self).chain(),
            final(self).head() == old(self).head(),
            final(self).nodes() == old(self).nodes().update(
                old(self).current() as int,
                ScheduleList {
                    proc: Process {
                        state: ProcessState::Ready,
                        ..old(self).running().unwrap().proc
                    },
                    ..old(self).nodes()[old(self).current() as int]
                },
            ),
            !first_ctx_switch ==> switches_to(*old(self), *final(self)),
            final(self).current() == (if first_ctx_switch || old(self).nodes()[old(
                self,
            ).current() as int].next is None {
                old(self).head().unwrap()
            } else {
                old(self).nodes()[old(self).current() as int].next.unwrap()
            }),
            final(self).running() == Some(
                ScheduleList {
                    proc: Process {
                        state: ProcessState::Running,
                        ..final(self).nodes()[final(self).current() as int].proc
                    },
                    ..final(self).nodes()[final(self).current() as int]
                },
            ),
    {
        let ghost old_nodes = self.nodes@;
        let mut curr = self.running.unwrap();
        curr.proc.state = ProcessState::Ready;
        let cur = self.current;
        let mut saved = self.nodes[cur];
        saved.proc = curr.proc;
        self.nodes.set(cur, saved);
        let next_index = if first_ctx_switch || self.nodes[cur].next.is_none() {
            self.head.unwrap()
        } else {
            self.nodes[cur].next.unwrap()
        };
        let mut next_proc = self.nodes[next_index];
        self.current = next_index;
        next_proc.proc.state = ProcessState::Running;
        self.running = Some(next_proc);
        proof {
            let nodes = self.nodes@;
            let c = self.chain@;
            assert forall|k: int| 0 <= k < c.len() - 1 implies nodes[#[trigger] c[k] as int].next
                == Some(c[k + 1]) by {
                assert(old_nodes[c[k] as int].next == Some(c[k + 1]));
            }
            assert forall|i: int| 0 <= i < nodes.len() implies (#[trigger] nodes[i].next matches Some(
                j,
            ) ==> j < nodes.len()) by {
                assert(old_nodes[i].next matches Some(j) ==> j < nodes.len());
            }
        }
    }

    /// Appends a node for `proc` at the tail of the list; the first node
    /// also becomes the head and the current node.
    pub(crate) fn append(&mut self, proc: Process, addr: usize)
        requires
            old(self).wf(),
            old(self).nodes().len() + 1 < usize::MAX,
        ensures
            final(self).wf(),
            old(self).chain().len() > 0 ==> final(self).nodes() == old(self).nodes().update(
                old(self).chain().last() as int,
                ScheduleList {
                    next: Some(old(self).nodes().len() as usize),
                    ..old(self).nodes()[old(self).chain().last() as int]
                },
            ).push(ScheduleList { proc, next: None, addr }),
            old(self).chain().len() == 0 ==> final(self).nodes() == old(self).nodes().push(
                ScheduleList { proc, next: None, addr },
            ),
            final(self).chain() == old(self).chain().push(old(self).nodes().len() as usize),
            final(self).nodes().len() == old(self).nodes().len() + 1,
            final(self).nodes()[old(self).nodes().len() as int] == (ScheduleList { proc, next: None, addr }),
            forall|i: int| 0 <= i < old(self).nodes().len() ==> #[trigger] final(self).nodes()[i].proc == old(self).nodes()[i].proc,
            old(self).head() is None ==> final(self).head() == Some(old(self).nodes().len() as usize)
                && final(self).current() == old(self).nodes().len(),
            old(self).head() is Some ==> final(self).head() == old(self).head()
                && final(self).current() == old(self).current(),
            final(self).running() == old(self).running(),
            final(self).procs() == old(self).procs().push(proc),
    {
        let idx = self.nodes.len();
        let node = ScheduleList { proc, next: None, addr };
        let ghost chain = self.chain@;
        let ghost old_nodes = self.nodes@;
        match self.head {
            None => {
                self.nodes.push(node);
                self.head = Some(idx);
                self.current = idx;
            },
            Some(h) => {
                let mut tail = h;
                let ghost mut pos: int = 0;
                while self.nodes[tail].next.is_some()
                    invariant
                        self.nodes@ == old_nodes,
                        is_chain(old_nodes, chain),
                        chain.len() > 0,
                        0 <= pos < chain.len(),
                        tail == chain[pos],
                        tail < old_nodes.len(),
                    decreases chain.len() - pos,
                {
                    tail = self.nodes[tail].next.unwrap();
                    proof {
                        if pos == chain.len() - 1 {
                            assert(old_nodes[chain.last() as int].next is None);
                        }
                        pos = pos + 1;
                    }
                }
                proof {
                    if pos < chain.len() - 1 {
                        assert(old_nodes[chain[pos] as int].next == Some(chain[pos + 1]));
                    }
                }
                let mut t = self.nodes[tail];
                t.next = Some(idx);
                self.nodes.set(tail, t);
                self.nodes.push(node);
            },
        }
        proof {
            self.chain@ = chain.push(idx);
            let nodes = self.nodes@;
            let c = self.chain@;
            assert forall|k: int| 0 <= k < c.len() - 1 implies nodes[#[trigger] c[k] as int].next
                == Some(c[k + 1]) by {
                if k < c.len() - 2 {
                    assert(c[k] != chain.last());
                }
            }
            assert forall|i: int, j: int| 0 <= i < j < c.len() implies c[i] != c[j] by {
                if j == c.len() - 1 {
                    assert(c[i] < old_nodes.len());
                }
            }
            assert(self.procs() =~= old(self).procs().push(proc));
        }
    }
}

/// The node that a context switch other than the first moves to: the
/// current node's successor, or the head when the current node is the tail.
pub open spec fn successor(s: Scheduler) -> usize {
    if s.nodes()[s.current() as int].next is None {
        s.head().unwrap()
    } else {
        s.nodes()[s.current() as int].next.unwrap()
    }
}

/// Whether `b` is what `next_proc(false)` makes of `a`: the list is kept,
/// the running process is written back into its node as ready, and the
/// successor becomes current, with a copy of it marked running.
pub open spec fn switches_to(a: Scheduler, b: Scheduler) -> bool {
    &&& b.wf()
    &&& b.chain() == a.chain()
    &&& b.head() == a.head()
    &&& b.nodes() == a.nodes().update(
        a.current() as int,
        ScheduleList {
            proc: Process { state: ProcessState::Ready, ..a.running().unwrap().proc },
            ..a.nodes()[a.current() as int]
        },
    )
    &&& b.current() == successor(a)
    &&& b.running() == Some(running_copy(b))
}

/// The current node of `s`, with its process marked running.
pub open spec fn running_copy(s: Scheduler) -> ScheduleList {
    ScheduleList {
        proc: Process { state: ProcessState::Running, ..s.nodes()[s.current() as int].proc },
        ..s.nodes()[s.current() as int]
    }
}

/// Round robin: when the current node is listed at position `k`, the node
/// that `next_proc` switches to (other than on the first switch) is the
/// next one in the list, and the head after the tail.
pub proof fn next_proc_is_round_robin(s: &Scheduler, k: int)
    requires
        s.wf(),
        0 <= k < s.chain().len(),
        s.current() == s.chain()[k],
    ensures
        successor(*s) == s.chain()[(k + 1) % (s.chain().len() as int)],
{
    let n = s.chain().len() as int;
    if k < n - 1 {
        assert(s.nodes()[s.chain()[k] as int].next == Some(s.chain()[k + 1]));
        vstd::arithmetic::div_mod::lemma_small_mod((k + 1) as nat, n as nat);
    } else {
        assert((k + 1) % n == 0) by (nonlinear_arith)
            requires
                k + 1 == n,
                n > 0,
        ;
    }
}

/// A position past the end of a list of `n` wraps round once.
proof fn lemma_wrap(x: int, n: int)
    requires
        0 < n,
        0 <= x < 2 * n,
    ensures
        x % n == (if x < n {
            x
        } else {
            x - n
        }),
{
    if x < n {
        vstd::arithmetic::div_mod::lemma_small_mod(x as nat, n as nat);
    } else {
        vstd::arithmetic::div_mod::lemma_mod_add_multiples_vanish(x - n, n);
        vstd::arithmetic::div_mod::lemma_small_mod((x - n) as nat, n as nat);
    }
}

/// After `j` of the switches of a turn, the list is unchanged and the
/// process `j` places on from position `i` is current.
proof fn lemma_turn_step(states: Seq<Scheduler>, i: int, j: int)
    requires
        states.len() == states[0].chain().len() + 1,
        states[0].wf(),
        0 <= i < states[0].chain().len(),
        states[0].current() == states[0].chain()[i],
        forall|t: int| 0 <= t < states.len() - 1 ==> switches_to(#[trigger] states[t], states[t + 1]),
        0 <= j < states.len(),
    ensures
        states[j].wf(),
        states[j].chain() == states[0].chain(),
        states[j].current() == states[0].chain()[(i + j) % (states[0].chain().len() as int)],
    decreases j,
{
    let n = states[0].chain().len() as int;
    lemma_wrap(i + j, n);
    if j > 0 {
        lemma_turn_step(states, i, j - 1);
        let s = states[j - 1];
        assert(switches_to(states[j - 1], states[j]));
        lemma_wrap(i + j - 1, n);
        next_proc_is_round_robin(&s, (i + j - 1) % n);
        if i + j - 1 >= n {
            lemma_wrap(i + j - n, n);
        }
    } else {
        vstd::arithmetic::div_mod::lemma_small_mod(i as nat, n as nat);
    }
}

/// Round robin over a full turn: starting from the process listed at
/// position `i` of a list of `n` processes, `n` context switches (none of
/// them the first) with no change to the list in between make current the
/// processes at positions `i + 1`, `i + 2`, ... modulo `n`, ending with the
/// one at `i` again; each listed process is made running exactly once in
/// the turn.
pub proof fn next_proc_serves_each_process_once_per_turn(states: Seq<Scheduler>, i: int)
    requires
        states.len() == states[0].chain().len() + 1,
        states[0].wf(),
        states[0].running() is Some,
        0 <= i < states[0].chain().len(),
        states[0].current() == states[0].chain()[i],
        forall|j: int| 0 <= j < states.len() - 1 ==> switches_to(#[trigger] states[j], states[j + 1]),
    ensures
        forall|j: int|
            0 <= j < states.len() ==> {
                &&& (#[trigger] states[j]).chain() == states[0].chain()
                &&& states[j].current() == states[0].chain()[(i + j) % (states[0].chain().len() as int)]
            },
        forall|j: int|
            1 <= j < states.len() ==> (#[trigger] states[j]).running() == Some(running_copy(states[j])),
        forall|j1: int, j2: int|
            1 <= j1 < j2 < states.len() ==> (#[trigger] states[j1]).current() != (#[trigger] states[
                j2]).current(),
        forall|p: int|
            0 <= p < states[0].chain().len() ==> exists|j: int|
                1 <= j < states.len() && (#[trigger] states[j]).current() == #[trigger] states[0].chain()[p],
{
    let chain = states[0].chain();
    let n = chain.len() as int;
    assert forall|j: int| 0 <= j < states.len() implies (#[trigger] states[j]).chain() == chain
        && states[j].current() == chain[(i + j) % n] by {
        lemma_turn_step(states, i, j);
    }
    assert forall|j: int| 1 <= j < states.len() implies (#[trigger] states[j]).running() == Some(
        running_copy(states[j]),
    ) by {
        assert(switches_to(states[j - 1], states[j]));
    }
    assert forall|j1: int, j2: int| 1 <= j1 < j2 < states.len() implies (#[trigger] states[
        j1]).current() != (#[trigger] states[j2]).current() by {
        lemma_wrap(i + j1, n);
        lemma_wrap(i + j2, n);
    }
    assert forall|p: int| 0 <= p < n implies exists|j: int|
        1 <= j < states.len() && (#[trigger] states[j]).current() == #[trigger] chain[p] by {
        let j = if p > i {
            p - i
        } else {
            p - i + n
        };
        lemma_wrap(i + j, n);
        assert(states[j].current() == chain[p]);
    }
}

} // verus!
