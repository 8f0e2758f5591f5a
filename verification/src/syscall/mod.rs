//! The syscalls that read or change the memory of the calling task, with
//! the task's address space and the frame allocator handed in by the caller.

pub mod memory;
pub mod process;
