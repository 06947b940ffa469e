//! Decoding and rendering of traced system calls: the logic of a small
//! `strace`-like tracer, separated from the ptrace plumbing that drives it.
pub mod text;
pub mod decoder;
pub mod ptrace;
pub mod handler;
pub mod tracer;
pub mod cli;
