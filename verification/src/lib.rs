//! Kernel logic of a small round-robin operating system for a Cortex-M0
//! board: the first-fit heap allocator, the receive ring buffer of the
//! serial console, the process table and its scheduler, the shell command
//! interpreter, the system-call and trap dispatch, and the register values
//! that bring the clock tree, the GPIO port and the USART up.
//!
//! Everything here works on explicit state values; the memory-mapped I/O,
//! the assembly and the global cells that hold these values live in the
//! firmware around the library.
#![allow(unused_imports)]

pub mod circ_buffer;
pub mod allocator;
pub mod tasks;
pub mod process;
pub mod scheduler;
pub mod trap;
pub mod shell;
pub mod peripherals;
pub mod syscall;
