//! Symbolic decoding of system call arguments.
pub mod syscalls;
