//! Splitting a command line into opcode and argument, and running it.
use vstd::prelude::*;
use crate::allocator::memory::{after_free, ready_zalloc_bytes, Heap};
use crate::process::{is_user_context, stack_release_safe, ProcessState, STACK_SIZE};
use crate::scheduler::{ScheduleList, Scheduler, SCHEDULE_NODE_SIZE};
use crate::shell::commands::{
    can_add_proc,
    can_rm_proc_by_pid,
    add_proc,
    add_proc_safe,
    pid_pos,
    released_proc,
    removable,
    rm_proc_by_name,
    rm_proc_by_pid,
};
use crate::shell::ShellError;
use crate::tasks::dispatcher::{first_match, is_registered, str_equals, FunctionTable};
use crate::trap::critical_section::CriticalSection;

verus! {

/// Whether `c` has the Unicode `White_Space` property (what
/// `char::is_whitespace` tests): tab to carriage return, space, next line,
/// no-break space, ogham space mark, the spaces U+2000 to U+200A, line and
/// paragraph separators, narrow no-break space, medium mathematical space
/// and ideographic space.
pub open spec fn is_white_space(c: char) -> bool {
    let v = c as int;
    ||| 0x09 <= v <= 0x0D
    ||| v == 0x20
    ||| v == 0x85
    ||| v == 0xA0
    ||| v == 0x1680
    ||| 0x2000 <= v <= 0x200A
    ||| v == 0x2028
    ||| v == 0x2029
    ||| v == 0x202F
    ||| v == 0x205F
    ||| v == 0x3000
}

/// Whether `c` is an ASCII decimal digit.
pub open spec fn is_digit(c: char) -> bool {
    '0' <= c <= '9'
}

/// The number that a string of decimal digits spells.
pub open spec fn decimal_value(s: Seq<char>) -> int
    decreases s.len(),
{
    if s.len() == 0 {
        0
    } else {
        decimal_value(s.drop_last()) * 10 + (s.last() as int - '0' as int)
    }
}

/// The text after an optional leading `+`.
pub open spec fn unsigned_digits(s: Seq<char>) -> Seq<char> {
    if s.len() > 0 && s[0] == '+' {
        s.drop_first()
    } else {
        s
    }
}

/// Whether every character of `s` is a decimal digit.
pub open spec fn all_digits(s: Seq<char>) -> bool {
    forall|i: int| 0 <= i < s.len() ==> is_digit(#[trigger] s[i])
}

/// What `str::parse::<u16>` gives for the text `s`: an optional `+` sign
/// followed by at least one decimal digit and nothing else, spelling a
/// value that fits 16 bits.
pub open spec fn parse_u16(s: Seq<char>) -> Option<u16> {
    let digits = unsigned_digits(s);
    if digits.len() > 0 && all_digits(digits) && decimal_value(digits) <= u16::MAX {
        Some(decimal_value(digits) as u16)
    } else {
        None
    }
}

/// Index of the first white-space character of `cmd`, or its length.
pub open spec fn first_space(cmd: Seq<char>) -> int
    decreases cmd.len(),
{
    if cmd.len() == 0 {
        0
    } else if is_white_space(cmd[0]) {
        0
    } else {
        1 + first_space(cmd.drop_first())
    }
}

/// The opcode: the characters before the first white space.
pub open spec fn opcode_of(cmd: Seq<char>) -> Seq<char> {
    cmd.take(first_space(cmd))
}

/// The argument: everything after the first white space (empty when
/// there is none).
pub open spec fn args_of(cmd: Seq<char>) -> Seq<char> {
    if first_space(cmd) < cmd.len() {
        cmd.skip(first_space(cmd) + 1)
    } else {
        Seq::empty()
    }
}

proof fn lemma_first_space(cmd: Seq<char>)
    ensures
        0 <= first_space(cmd) <= cmd.len(),
        forall|i: int| 0 <= i < first_space(cmd) ==> !is_white_space(#[trigger] cmd[i]),
        first_space(cmd) < cmd.len() ==> is_white_space(cmd[first_space(cmd)]),
    decreases cmd.len(),
{
    if cmd.len() > 0 && !is_white_space(cmd[0]) {
        lemma_first_space(cmd.drop_first());
        assert forall|i: int| 0 <= i < first_space(cmd) implies !is_white_space(#[trigger] cmd[i]) by {
            if i > 0 {
                assert(cmd[i] == cmd.drop_first()[i - 1]);
            }
        }
    }
}

proof fn lemma_decimal_step(s: Seq<char>, i: int)
    requires
        0 <= i < s.len(),
    ensures
        decimal_value(s.take(i + 1)) == decimal_value(s.take(i)) * 10 + (s[i] as int - '0' as int),
{
    assert(s.take(i + 1).drop_last() =~= s.take(i));
}

proof fn lemma_decimal_grows(s: Seq<char>, i: int)
    requires
        0 <= i <= s.len(),
        forall|j: int| 0 <= j < s.len() ==> is_digit(#[trigger] s[j]),
    ensures
        decimal_value(s.take(i)) <= decimal_value(s),
        decimal_value(s.take(i)) >= 0,
    decreases s.len() - i,
{
    if i < s.len() {
        lemma_decimal_step(s, i);
        lemma_decimal_grows(s, i + 1);
        assert(s[i] as int - '0' as int >= 0);
    } else {
        assert(s.take(i) =~= s);
        lemma_decimal_nonneg(s);
    }
}

proof fn lemma_decimal_nonneg(s: Seq<char>)
    requires
        forall|j: int| 0 <= j < s.len() ==> is_digit(#[trigger] s[j]),
    ensures
        decimal_value(s) >= 0,
    decreases s.len(),
{
    if s.len() > 0 {
        assert forall|j: int| 0 <= j < s.drop_last().len() implies is_digit(
            #[trigger] s.drop_last()[j],
        ) by {
            assert(s.drop_last()[j] == s[j]);
        }
        lemma_decimal_nonneg(s.drop_last());
        assert(is_digit(s[s.len() - 1]));
    }
}

/// `char::is_whitespace`.
pub fn is_whitespace(c: char) -> (r: bool)
    ensures
        r == is_white_space(c),
{
    let v = c as u32;
    (0x09 <= v && v <= 0x0D) || v == 0x20 || v == 0x85 || v == 0xA0 || v == 0x1680 || (0x2000 <= v
        && v <= 0x200A) || v == 0x2028 || v == 0x2029 || v == 0x202F || v == 0x205F || v == 0x3000
}

/// `str::parse::<u16>` on the text `s`, as an option.
pub fn parse_decimal_u16(s: &[char]) -> (r: Option<u16>)
    ensures
        r == parse_u16(s@),
{
    let n = s.len();
    let mut i: usize = 0;
    if n > 0 && s[0] == '+' {
        i = 1;
    }
    let ghost digits = unsigned_digits(s@);
    let first = i;
    if first == n {
        return None;
    }
    let mut acc: u32 = 0;
    while i < n
        invariant
            first <= i <= n,
            n == s@.len(),
            first == s@.len() - digits.len(),
            digits == s@.subrange(first as int, n as int),
            digits == unsigned_digits(s@),
            acc == decimal_value(digits.take(i - first)),
            acc <= u16::MAX,
            forall|j: int| 0 <= j < i - first ==> is_digit(#[trigger] digits[j]),
        decreases n - i,
    {
        let c = s[i];
        if !('0' <= c && c <= '9') {
            proof {
                assert(digits[i - first] == c);
                assert(!is_digit(digits[i - first]));
                assert(!all_digits(digits));
                assert(parse_u16(s@) is None);
            }
            return None;
        }
        proof {
            lemma_decimal_step(digits, i - first);
        }
        let d = (c as u32) - ('0' as u32);
        acc = acc * 10 + d;
        if acc > 65535 {
            proof {
                assert(decimal_value(digits.take(i - first + 1)) == acc);
                if all_digits(digits) {
                    lemma_decimal_grows(digits, i - first + 1);
                    assert(decimal_value(digits) > u16::MAX);
                }
                assert(parse_u16(s@) is None);
            }
            return None;
        }
        i = i + 1;
    }
    proof {
        assert(digits.take(n - first) =~= digits);
    }
    Some(acc as u16)
}

/// The opcode `rmproc`.
pub open spec fn is_rmproc(op: Seq<char>) -> bool {
    op == "rmproc"@
}

/// The opcode `addproc`.
pub open spec fn is_addproc(op: Seq<char>) -> bool {
    op == "addproc"@
}

/// Whether running `cmd` cannot panic or write outside the heap: for
/// `rmproc` with a numeric argument the process list exists and the stack
/// to release can be freed; for `addproc` the lookup and the allocations
/// are safe.
pub open spec fn command_safe(
    cmd: Seq<char>,
    heap: &Heap,
    sched: &Scheduler,
    table: &FunctionTable,
    new_pid: u16,
) -> bool {
    let op = opcode_of(cmd);
    let args = args_of(cmd);
    &&& is_rmproc(op) ==> (parse_u16(args) matches Some(p) ==> {
        &&& sched.head() is Some
        &&& removable(sched, p) ==> stack_release_safe(heap, released_proc(sched, p))
    })
    &&& is_addproc(op) ==> add_proc_safe(heap, sched, table, new_pid, args)
}

/// Splits a command line: the characters before the first white space
/// form the opcode; that white space is dropped and everything after it is
/// the argument.
pub fn split_command(cmd: &Vec<char>) -> (r: (Vec<char>, Vec<char>))
    ensures
        r.0@ == opcode_of(cmd@),
        r.1@ == args_of(cmd@),
{
    let ghost c = cmd@;
    let ghost fs = first_space(c);
    proof {
        lemma_first_space(c);
    }
    let mut args: Vec<char> = Vec::new();
    let mut opcode: Vec<char> = Vec::new();
    let mut arg_start = false;
    let n = cmd.len();
    let mut i: usize = 0;
    while i < n
        invariant
            n == c.len(),
            cmd@ == c,
            i <= n,
            0 <= fs <= n,
            forall|j: int| 0 <= j < fs ==> !is_white_space(#[trigger] c[j]),
            fs < n ==> is_white_space(c[fs]),
            arg_start == (i > fs),
            opcode@ == c.take(if i < fs { i as int } else { fs }),
            args@ == (if i > fs { c.subrange(fs + 1, i as int) } else { Seq::<char>::empty() }),
        decreases n - i,
    {
        let e = cmd[i];
        let ws = is_whitespace(e);
        if ws && !arg_start {
            arg_start = true;
            i = i + 1;
            proof {
                assert(args@ =~= c.subrange(fs + 1, i as int));
            }
            continue;
        } else if !ws && !arg_start {
            opcode.push(e);
        }
        if arg_start {
            args.push(e);
        }
        i = i + 1;
        proof {
            if i as int <= fs {
                assert(opcode@ =~= c.take(i as int));
            } else {
                assert(args@ =~= c.subrange(fs + 1, i as int));
            }
        }
    }
    proof {
        assert(opcode@ =~= opcode_of(c));
        assert(args@ =~= args_of(c));
    }
    (opcode, args)
}

/// Whether `process_command(cmd)` may be called.
pub fn can_process_command(
    cmd: &Vec<char>,
    heap: &Heap,
    sched: &Scheduler,
    table: &FunctionTable,
    new_pid: u16,
) -> (r: bool)
    requires
        heap.wf(),
        sched.wf(),
        table.wf(),
    ensures
        r == command_safe(cmd@, heap, sched, table, new_pid),
{
    let (opcode, args) = split_command(cmd);
    proof {
        reveal_strlit("rmproc");
        reveal_strlit("addproc");
        assert("rmproc"@.len() == 6);
        assert("addproc"@.len() == 7);
        assert("rmproc"@ != "addproc"@);
    }
    if str_equals("rmproc", opcode.as_slice()) {
        assert(is_rmproc(opcode_of(cmd@)));
        assert(!is_addproc(opcode_of(cmd@)));
        match parse_decimal_u16(args.as_slice()) {
            Some(p) => can_rm_proc_by_pid(sched, heap, p),
            None => true,
        }
    } else if str_equals("addproc", opcode.as_slice()) {
        assert(is_addproc(opcode_of(cmd@)));
        can_add_proc(heap, sched, table, new_pid, args.as_slice())
    } else {
        true
    }
}

/// Runs one command line. The opcode is the text before the first white
/// space and the argument everything after it.
///
/// - `rmproc <arg>`: when the argument parses as a `u16`, the process with
///   that id is removed as `rm_proc_by_pid` does; otherwise, or when that
///   fails, removal by name is tried, which does nothing. The result is
///   always `Ok`.
/// - `addproc <name>`: as `add_proc`.
/// - anything else: `ParserError("Unrecognized opcode")`, nothing changes.
pub fn process_command(
    cmd: Vec<char>,
    cs: &CriticalSection,
    heap: &mut Heap,
    sched: &mut Scheduler,
    table: &FunctionTable,
    new_pid: &mut u16,
) -> (r: Result<(), ShellError>)
    requires
        old(heap).wf(),
        old(sched).wf(),
        table.wf(),
        command_safe(cmd@, old(heap), old(sched), table, *old(new_pid)),
    ensures
        final(heap).wf(),
        final(sched).wf(),
        ({
            let op = opcode_of(cmd@);
            let args = args_of(cmd@);
            if is_rmproc(op) {
                &&& r is Ok
                &&& *final(new_pid) == *old(new_pid)
                &&& match parse_u16(args) {
                    Some(p) => if removable(old(sched), p) {
                        &&& final(sched).chain() == old(sched).chain().remove(pid_pos(old(sched), p))
                        &&& final(sched).procs() == old(sched).procs().remove(pid_pos(old(sched), p))
                        &&& final(heap).bytes() == after_free(
                            old(heap).bytes(),
                            old(heap).heap_start(),
                            released_proc(old(sched), p).stack_base - STACK_SIZE,
                        )
                        &&& final(heap).heap_start() == old(heap).heap_start()
                        &&& final(heap).heap_size() == old(heap).heap_size()
                        &&& final(sched).nodes() == old(sched).nodes().update(
                            old(sched).chain()[pid_pos(old(sched), p) - 1] as int,
                            ScheduleList {
                                next: old(sched).nodes()[old(sched).chain()[pid_pos(
                                    old(sched),
                                    p,
                                )] as int].next,
                                ..old(sched).nodes()[old(sched).chain()[pid_pos(old(sched), p) - 1] as int]
                            },
                        )
                        &&& final(sched).running() == old(sched).running()
                        &&& final(sched).head() == old(sched).head()
                        &&& final(sched).current() == old(sched).current()
                    } else {
                        *final(sched) == *old(sched) && *final(heap) == *old(heap)
                    },
                    None => *final(sched) == *old(sched) && *final(heap) == *old(heap),
                }
            } else if is_addproc(op) {
                if is_registered(table@, args) {
                    &&& r is Ok
                    &&& final(sched).procs().drop_last() == old(sched).procs()
                    &&& final(sched).procs().len() == old(sched).procs().len() + 1
                    &&& final(sched).procs().last().pid == *old(new_pid)
                    &&& final(sched).procs().last().ctx.pc == first_match(table@, args).unwrap()
                    &&& is_user_context(
                        final(sched).procs().last().ctx,
                        first_match(table@, args).unwrap(),
                        final(sched).procs().last().stack_base,
                    )
                    &&& final(sched).procs().last().state == ProcessState::Ready
                    &&& final(sched).procs().last().stack_base == old(heap).zalloc_block_addr(
                        STACK_SIZE,
                    ) + STACK_SIZE
                    &&& *final(new_pid) == *old(new_pid) + 1
                    &&& final(sched).chain() == old(sched).chain().push(
                        old(sched).nodes().len() as usize,
                    )
                    &&& final(sched).nodes().len() == old(sched).nodes().len() + 1
                    &&& old(sched).head() is None ==> final(sched).head() == Some(
                        old(sched).nodes().len() as usize,
                    ) && final(sched).current() == old(sched).nodes().len()
                    &&& old(sched).head() is Some ==> final(sched).head() == old(sched).head()
                        && final(sched).current() == old(sched).current()
                    &&& final(sched).running() == old(sched).running()
                    &&& final(heap).heap_start() == old(heap).heap_start()
                    &&& final(heap).heap_size() == old(heap).heap_size()
                    &&& final(heap).bytes() == ready_zalloc_bytes(
                        old(heap).zalloc_block_bytes(STACK_SIZE),
                        old(heap).heap_size(),
                        old(heap).heap_start(),
                        SCHEDULE_NODE_SIZE,
                    )
                } else {
                    &&& r == Err::<(), ShellError>(ShellError::ExecutionError)
                    &&& *final(sched) == *old(sched)
                    &&& *final(heap) == *old(heap)
                    &&& *final(new_pid) == *old(new_pid)
                }
            } else {
                &&& r matches Err(ShellError::ParserError(m)) && m@ == "Unrecognized opcode"@
                &&& *final(sched) == *old(sched)
                &&& *final(heap) == *old(heap)
                &&& *final(new_pid) == *old(new_pid)
            }
        }),
{
    let (opcode, args) = split_command(&cmd);
    if str_equals("rmproc", opcode.as_slice()) {
        let parsed = parse_decimal_u16(args.as_slice());
        let removed = match parsed {
            Some(p) => rm_proc_by_pid(p, cs, sched, heap).is_ok(),
            None => false,
        };
        if removed {
            Ok(())
        } else {
            rm_proc_by_name(args, cs)
        }
    } else if str_equals("addproc", opcode.as_slice()) {
        add_proc(cs, args.as_slice(), heap, sched, table, new_pid)
    } else {
        Err(ShellError::ParserError(String::from_str("Unrecognized opcode")))
    }
}

/// A command line is its opcode, the white space that ends it (if any), and
/// its argument, in that order.
pub proof fn command_splits_losslessly(cmd: Seq<char>)
    ensures
        first_space(cmd) < cmd.len() ==> opcode_of(cmd) + seq![cmd[first_space(cmd)]] + args_of(cmd)
            == cmd,
        first_space(cmd) == cmd.len() ==> opcode_of(cmd) == cmd && args_of(cmd).len() == 0,
        forall|i: int| 0 <= i < opcode_of(cmd).len() ==> !is_white_space(#[trigger] opcode_of(cmd)[i]),
{
    lemma_first_space(cmd);
    let fs = first_space(cmd);
    if fs < cmd.len() {
        assert(opcode_of(cmd) + seq![cmd[fs]] + args_of(cmd) =~= cmd);
    } else {
        assert(opcode_of(cmd) =~= cmd);
    }
}

} // verus!
