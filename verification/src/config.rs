//! Sizes fixed by the platform.

use vstd::prelude::*;

verus! {

/// Bytes in one page, and so in one physical frame.
pub const PAGE_SIZE: usize = 4096;

/// Number of syscall identifiers that per-task accounting distinguishes.
pub const MAX_SYSCALL_NUM: usize = 500;

/// Number of pages needed to hold `len` bytes.
pub open spec fn pages_for(len: int) -> int {
    (len + PAGE_SIZE - 1) / (PAGE_SIZE as int)
}

/// Computes the number of pages needed to hold `len` bytes.
pub fn page_count_for(len: usize) -> (n: usize)
    ensures
        n == pages_for(len as int),
{
    if len % PAGE_SIZE == 0 {
        len / PAGE_SIZE
    } else {
        len / PAGE_SIZE + 1
    }
}

} // verus!
