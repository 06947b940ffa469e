//! Access to the tracee: rendering of its memory.
pub mod mm;
