//! Syscalls that change the mappings of the calling task.

use vstd::prelude::*;
use crate::address_space::AddressSpace;
use crate::frame_allocator::FrameAllocator;
use crate::space_model::{mmap_post, munmap_post, sbrk_post, AddressSpaceView};

verus! {

/// What `sys_sbrk` is answered by the address space: no move is made from
/// a break that the return value could not hold.
pub open spec fn sys_sbrk_outcome(space: AddressSpaceView, free: nat, delta: int) -> Option<
    usize,
> {
    if space.brk > isize::MAX {
        None
    } else {
        space.sbrk_outcome(free, delta)
    }
}

/// Maps the pages that hold the `len` bytes from `start` with the rights
/// in `prot` (bit 0 read, bit 1 write, bit 2 execute). Returns 0 if the
/// mapping was made and -1, with nothing changed, if it was refused for any
/// reason.
pub fn sys_mmap(
    space: &mut AddressSpace,
    alloc: &mut FrameAllocator,
    start: usize,
    len: usize,
    prot: usize,
) -> (r: isize)
    requires
        old(space).wf(),
        old(alloc).wf(),
        old(space).backed_by(old(alloc)),
    ensures
        final(space).wf(),
        final(alloc).wf(),
        final(space).backed_by(final(alloc)),
        r == (if old(space)@.mmap_outcome(old(alloc)@.free_count(), start, len, prot) is Ok {
            0isize
        } else {
            -1isize
        }),
        mmap_post(
            old(space)@,
            old(alloc)@,
            final(space)@,
            final(alloc)@,
            start,
            len,
            prot,
            old(space)@.mmap_outcome(old(alloc)@.free_count(), start, len, prot),
        ),
{
    match space.mmap(alloc, start, len, prot) {
        Ok(_) => 0,
        Err(_) => -1,
    }
}

/// Unmaps the pages that hold the `len` bytes from `start`. Returns 0 if
/// they were unmapped and -1, with nothing changed, if the call was refused.
pub fn sys_munmap(space: &mut AddressSpace, alloc: &mut FrameAllocator, start: usize, len: usize)
    -> (r: isize)
    requires
        old(space).wf(),
        old(alloc).wf(),
        old(space).backed_by(old(alloc)),
    ensures
        final(space).wf(),
        final(alloc).wf(),
        final(space).backed_by(final(alloc)),
        r == (if old(space)@.munmap_outcome(start, len) is Ok {
            0isize
        } else {
            -1isize
        }),
        munmap_post(
            old(space)@,
            old(alloc)@,
            final(space)@,
            final(alloc)@,
            start,
            len,
            old(space)@.munmap_outcome(start, len),
        ),
{
    match space.munmap(alloc, start, len) {
        Ok(_) => 0,
        Err(_) => -1,
    }
}

/// Moves the program break by `delta` bytes. Returns the break as it was
/// before, or -1, with nothing changed, if the move was refused.
pub fn sys_sbrk(space: &mut AddressSpace, alloc: &mut FrameAllocator, delta: isize) -> (r: isize)
    requires
        old(space).wf(),
        old(alloc).wf(),
        old(space).backed_by(old(alloc)),
    ensures
        final(space).wf(),
        final(alloc).wf(),
        final(space).backed_by(final(alloc)),
        r == (match sys_sbrk_outcome(old(space)@, old(alloc)@.free_count(), delta as int) {
            Some(b) => b as isize,
            None => -1isize,
        }),
        sbrk_post(
            old(space)@,
            old(alloc)@,
            final(space)@,
            final(alloc)@,
            delta as int,
            sys_sbrk_outcome(old(space)@, old(alloc)@.free_count(), delta as int),
        ),
{
    if space.brk() > isize::MAX as usize {
        return -1;
    }
    match space.sbrk(alloc, delta) {
        Some(b) => b as isize,
        None => -1,
    }
}

} // verus!
