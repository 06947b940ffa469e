//! Rendering of system call entries and exits.
pub mod syscall;
