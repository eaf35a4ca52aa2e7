# m0_kernel

The kernel logic of a small round-robin operating system for an STM32F0
(Cortex-M0) board, verified with Verus.

- `src/allocator` — the first-fit heap: block headers, allocation of zeroed
  blocks and 8-byte aligned stacks, freeing; the heap bytes are modelled
  exactly, so each operation states the bytes it leaves.
- `src/circ_buffer.rs` — the ring buffer that receives console input.
- `src/process.rs`, `src/scheduler.rs` — process control blocks, the linked
  process list and the round-robin context switch.
- `src/tasks` — the table of named process entry points.
- `src/shell` — line input and the `rmproc` / `addproc` commands.
- `src/trap.rs`, `src/syscall.rs` — exception and system-call dispatch.
- `src/peripherals` — clock, GPIO, EXTI, SysTick and USART bring-up as lists
  of register accesses.

`app/` is the firmware around the library: global state, memory-mapped
register access (through `volatile-register`), the assembly instructions,
and the interrupt entry points. It checks the library's preconditions
before each call and carries out what the library computes, writing the
heap bytes that the library changes into the RAM region they stand for.
It also holds what the library's byte model of the heap asks of a real
board: a boot arena for the heaps' own byte vectors, a second, smaller
heap of the library that serves allocations made while the kernel state
is in use, and a short list of frees put off until that state is released.
