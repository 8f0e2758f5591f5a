//! User address-space management for a small kernel: physical frames, a page
//! table, memory areas, `mmap`/`munmap`/program-break handling and copies
//! between kernel buffers and user virtual memory.

pub mod config;
pub mod error;
pub mod permissions;
pub mod frame_allocator;
pub mod page_table;
pub mod memory_area;
pub mod space_model;
pub mod space_proofs;
pub mod address_space;
pub mod user_copy;
pub mod layout;
pub mod syscall;
pub mod laws;
