//! Registration of the functions that the shell may start as processes.
pub mod dispatcher;
