use m0_kernel::allocator::memory::{FreeList, Heap};
use m0_kernel::circ_buffer::EmptyBufferError;
use m0_kernel::process::Process;
use m0_kernel::scheduler::Scheduler;
use m0_kernel::shell::commands::{add_proc, can_add_proc, can_rm_proc_by_pid, rm_proc_by_name, rm_proc_by_pid};
use m0_kernel::shell::parser::{
    can_process_command, is_whitespace, parse_decimal_u16, process_command, split_command,
};
use m0_kernel::shell::{ShellError, ShellLine, ShellStep};
use m0_kernel::tasks::dispatcher::{FunctionTable, ProcessIdentifier};
use m0_kernel::trap::critical_section::CriticalSection;

const START: usize = 0x2000_0000;

fn chars(s: &str) -> Vec<char> {
    s.chars().collect()
}

struct Kernel {
    heap: Heap,
    sched: Scheduler,
    table: FunctionTable,
    pid: u16,
}

fn kernel() -> Kernel {
    let mut heap = Heap::new(START, 8192);
    FreeList::init(&mut heap);
    let mut sched = Scheduler::new();
    let mut table = FunctionTable::new();
    ProcessIdentifier::saver()
        .add(&mut table, "beef", 0x0800_0101)
        .add(&mut table, "sbeaf", 0x0800_0201);
    let mut pid: u16 = 1;
    Process::spawner().new_kernel(&mut heap, &mut sched, &mut pid, 0x0800_0001);
    Kernel { heap, sched, table, pid }
}

fn pids(k: &Kernel) -> Vec<u16> {
    k.sched.process_list().iter().map(|p| p.pid).collect()
}

fn run(k: &mut Kernel, line: &str) -> Result<(), ShellError> {
    let cmd = chars(line);
    assert!(can_process_command(&cmd, &k.heap, &k.sched, &k.table, k.pid));
    let cs = CriticalSection::new();
    process_command(cmd, &cs, &mut k.heap, &mut k.sched, &k.table, &mut k.pid)
}

#[test]
fn whitespace_matches_std_for_every_char() {
    for v in 0u32..=0x10FFFF {
        if let Some(c) = char::from_u32(v) {
            assert_eq!(is_whitespace(c), c.is_whitespace(), "char {:#x}", v);
        }
    }
}

#[test]
fn decimal_parse_matches_std() {
    let samples = [
        "", "0", "7", "42", "+42", "-1", "-0", "+", "-", "65535", "65536", "0065535", "99999999999",
        "12a", "a12", " 12", "12 ", "+-1", "++1", "00000000000000000001", "1_000", "६", "٣",
        "4294967296", "65534", "+0",
    ];
    for s in samples.iter() {
        let cs: Vec<char> = s.chars().collect();
        assert_eq!(parse_decimal_u16(&cs), s.parse::<u16>().ok(), "input {:?}", s);
    }
    for n in (0u32..70000).step_by(7) {
        let s = n.to_string();
        let cs: Vec<char> = s.chars().collect();
        assert_eq!(parse_decimal_u16(&cs), s.parse::<u16>().ok());
    }
}

#[test]
fn split_at_first_whitespace() {
    let (op, args) = split_command(&chars("rmproc 12"));
    assert_eq!(op, chars("rmproc"));
    assert_eq!(args, chars("12"));
    let (op, args) = split_command(&chars("addproc  two words"));
    assert_eq!(op, chars("addproc"));
    assert_eq!(args, chars(" two words"));
    let (op, args) = split_command(&chars("noargs"));
    assert_eq!(op, chars("noargs"));
    assert!(args.is_empty());
    let (op, args) = split_command(&chars(" lead"));
    assert!(op.is_empty());
    assert_eq!(args, chars("lead"));
}

#[test]
fn unknown_opcode_is_a_parser_error() {
    let mut k = kernel();
    match run(&mut k, "frobnicate 3") {
        Err(ShellError::ParserError(m)) => assert_eq!(m, "Unrecognized opcode"),
        other => panic!("unexpected {:?}", other),
    }
    match run(&mut k, "") {
        Err(ShellError::ParserError(m)) => assert_eq!(m, "Unrecognized opcode"),
        other => panic!("unexpected {:?}", other),
    }
    assert_eq!(pids(&k), vec![1]);
}

#[test]
fn addproc_starts_a_registered_function() {
    let mut k = kernel();
    assert!(matches!(run(&mut k, "addproc beef"), Ok(())));
    assert!(matches!(run(&mut k, "addproc sbeaf"), Ok(())));
    assert_eq!(pids(&k), vec![1, 2, 3]);
    let list = k.sched.process_list();
    assert_eq!(list[1].ctx.pc, 0x0800_0101);
    assert_eq!(list[2].ctx.pc, 0x0800_0201);
    assert_eq!(k.pid, 4);
    for p in &list[1..] {
        assert_eq!(p.ctx.general_regs, [0; 8]);
        assert_eq!(p.ctx.curr_sp, p.stack_base);
        assert_ne!(p.stack_base, 0);
        assert_eq!(p.ctx.lr, 0xFFFF_FFFF);
        assert_eq!(p.ctx.flags_regs, [1 << 24, 0, 2]);
    }
}

#[test]
fn addproc_unknown_name_with_full_table_fails() {
    let mut k = kernel();
    let s = ProcessIdentifier::saver();
    let names = ["c", "d", "e", "f", "g", "h", "i", "j"];
    for n in names.iter() {
        s.add(&mut k.table, *n, 0x10);
    }
    assert!(matches!(run(&mut k, "addproc nothere"), Err(ShellError::ExecutionError)));
    assert_eq!(pids(&k), vec![1]);
}

#[test]
fn addproc_unknown_name_with_free_slots_is_unsafe() {
    let k = kernel();
    // The lookup would reach an empty slot and panic.
    assert!(!can_add_proc(&k.heap, &k.sched, &k.table, k.pid, &chars("nothere")));
    assert!(!can_process_command(&chars("addproc nothere"), &k.heap, &k.sched, &k.table, k.pid));
}

#[test]
fn rmproc_removes_a_middle_process() {
    let mut k = kernel();
    run(&mut k, "addproc beef").unwrap();
    run(&mut k, "addproc sbeaf").unwrap();
    run(&mut k, "addproc beef").unwrap();
    assert_eq!(pids(&k), vec![1, 2, 3, 4]);
    let stack_of_2 = k.sched.process_list()[1].stack_base;
    let header = stack_of_2 - 328 - 8;
    assert_eq!(k.heap.header_at(header).size & 1, 1);
    assert!(matches!(run(&mut k, "rmproc 2"), Ok(())));
    assert_eq!(pids(&k), vec![1, 3, 4]);
    // The removed process's stack is free again.
    assert_eq!(k.heap.header_at(header).size & 1, 0);
}

#[test]
fn rmproc_of_the_tail_releases_the_previous_stack() {
    let mut k = kernel();
    run(&mut k, "addproc beef").unwrap();
    run(&mut k, "addproc sbeaf").unwrap();
    run(&mut k, "addproc beef").unwrap();
    let list = k.sched.process_list();
    let header_of_3 = list[2].stack_base - 328 - 8;
    let header_of_4 = list[3].stack_base - 328 - 8;
    assert!(matches!(run(&mut k, "rmproc 4"), Ok(())));
    assert_eq!(pids(&k), vec![1, 2, 3]);
    // Removing the tail releases the stack of the process before it.
    assert_eq!(k.heap.header_at(header_of_3).size & 1, 0);
    assert_eq!(k.heap.header_at(header_of_4).size & 1, 1);
}

#[test]
fn rmproc_of_head_or_unknown_or_text_changes_nothing() {
    let mut k = kernel();
    run(&mut k, "addproc beef").unwrap();
    assert!(matches!(run(&mut k, "rmproc 1"), Ok(())));
    assert!(matches!(run(&mut k, "rmproc 99"), Ok(())));
    assert!(matches!(run(&mut k, "rmproc beef"), Ok(())));
    assert!(matches!(run(&mut k, "rmproc"), Ok(())));
    assert_eq!(pids(&k), vec![1, 2]);
}

#[test]
fn rm_proc_by_pid_errors() {
    let mut k = kernel();
    run(&mut k, "addproc beef").unwrap();
    let cs = CriticalSection::new();
    assert!(can_rm_proc_by_pid(&k.sched, &k.heap, 1));
    assert!(matches!(rm_proc_by_pid(1, &cs, &mut k.sched, &mut k.heap), Err(ShellError::ExecutionError)));
    assert!(matches!(rm_proc_by_pid(42, &cs, &mut k.sched, &mut k.heap), Err(ShellError::ExecutionError)));
    // Removing the tail (pid 2) would release the kernel process's stack,
    // which it does not have.
    assert!(!can_rm_proc_by_pid(&k.sched, &k.heap, 2));
    assert!(matches!(rm_proc_by_name(chars("beef"), &cs), Ok(())));
    assert!(matches!(
        add_proc(&cs, &chars("sbeaf"), &mut k.heap, &mut k.sched, &k.table, &mut k.pid),
        Ok(())
    ));
    assert_eq!(pids(&k), vec![1, 2, 3]);
}

#[test]
fn shell_line_collects_until_carriage_return() {
    let mut line = ShellLine::new();
    assert!(matches!(line.feed(Ok(b'a')), ShellStep::Echo('a')));
    assert!(matches!(line.feed(Err(EmptyBufferError)), ShellStep::Yield));
    assert!(matches!(line.feed(Ok(b'b')), ShellStep::Echo('b')));
    match line.feed(Ok(b'\r')) {
        ShellStep::Execute(cmd) => assert_eq!(cmd, vec!['a', 'b']),
        _ => panic!("expected the command"),
    }
    match line.feed(Ok(b'\r')) {
        ShellStep::Execute(cmd) => assert!(cmd.is_empty()),
        _ => panic!("expected the command"),
    }
}

#[test]
fn split_parts_reassemble_the_line() {
    for line in ["rmproc 12", "addproc  two words", "noargs", " lead", "", "a\tb"] {
        let cmd = chars(line);
        let (op, args) = split_command(&cmd);
        if op.len() < cmd.len() {
            let mut whole = op.clone();
            whole.push(cmd[op.len()]);
            whole.extend(args.iter());
            assert_eq!(whole, cmd);
            assert!(cmd[op.len()].is_whitespace());
        } else {
            assert_eq!(op, cmd);
            assert!(args.is_empty());
        }
    }
}
