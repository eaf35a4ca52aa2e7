//! The command shell: line input from the receive buffer, and the commands.
pub mod commands;
pub mod parser;

use vstd::prelude::*;
use crate::circ_buffer::EmptyBufferError;

verus! {

/// Why a command failed.
#[derive(Debug)]
pub enum ShellError {
    ParserError(String),
    ExecutionError,
}

/// What the shell loop does with one result of reading the receive buffer.
pub enum ShellStep {
    /// A character was added to the line; echo it.
    Echo(char),
    /// Carriage return: echo a line break and run the command.
    Execute(Vec<char>),
    /// Nothing to read; yield to the next process.
    Yield,
}

/// The line being typed.
pub struct ShellLine {
    command: Vec<char>,
}

impl ShellLine {
    pub closed spec fn view(&self) -> Seq<char> {
        self.command@
    }

    /// An empty line.
    pub fn new() -> (l: ShellLine)
        ensures
            l@ == Seq::<char>::empty(),
    {
        ShellLine { command: Vec::new() }
    }

    /// One step of the shell loop: a byte other than carriage return is
    /// appended to the line (as the character with that code) and echoed; a
    /// carriage return hands the line over for execution and starts a new
    /// one; an empty buffer means yielding.
    pub fn feed(&mut self, input: Result<u8, EmptyBufferError>) -> (step: ShellStep)
        ensures
            match input {
                Ok(b) => if b != 13 {
                    &&& step == ShellStep::Echo(b as char)
                    &&& final(self)@ == old(self)@.push(b as char)
                } else {
                    &&& step is Execute
                    &&& step->Execute_0@ == old(self)@
                    &&& final(self)@ == Seq::<char>::empty()
                },
                Err(_) => step is Yield && final(self)@ == old(self)@,
            },
    {
        match input {
            Ok(cb) => {
                if cb != 13 {
                    let c = cb as char;
                    self.command.push(c);
                    ShellStep::Echo(c)
                } else {
                    let mut line: Vec<char> = Vec::new();
                    core::mem::swap(&mut line, &mut self.command);
                    ShellStep::Execute(line)
                }
            },
            Err(_) => ShellStep::Yield,
        }
    }
}

} // verus!
