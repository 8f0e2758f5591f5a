//! The mathematical model of an address space, and what `mmap`, `munmap`
//! and the program-break operation do to it.

use vstd::prelude::*;
use crate::config::{pages_for, PAGE_SIZE};
use crate::error::MemError;
use crate::frame_allocator::FrameAllocatorView;
use crate::memory_area::{page_range, with_fresh_frames, AreaView};
use crate::page_table::PageTableEntry;
use crate::permissions::{perms_of_bits, valid_perm_bits, Permissions};

verus! {

/// The rights of heap pages: user code may read and write them.
pub open spec fn heap_perms() -> Permissions {
    Permissions { read: true, write: true, execute: false, user: true }
}

/// How many of `areas` start below page `vpn`. In an ordered sequence this
/// is the index at which an area that starts at `vpn` belongs.
pub open spec fn areas_below(areas: Seq<AreaView>, vpn: int) -> int
    decreases areas.len(),
{
    if areas.len() == 0 {
        0
    } else {
        areas_below(areas.drop_last(), vpn) + if areas.last().start < vpn {
            1int
        } else {
            0int
        }
    }
}

/// The frames that `table` names for the pages `lo..hi`.
pub open spec fn frames_of_pages(table: Map<usize, PageTableEntry>, lo: int, hi: int) -> Set<
    usize,
> {
    Set::new(
        |f: usize|
            exists|v: usize| lo <= v < hi && #[trigger] table.contains_key(v) && table[v].frame == f,
    )
}

/// What an address space is, mathematically.
#[verifier::ext_equal]
pub struct AddressSpaceView {
    /// The page table.
    pub table: Map<usize, PageTableEntry>,
    /// The areas made by `mmap`, ordered by their first page.
    pub areas: Seq<AreaView>,
    /// The heap area, which grows and shrinks with the program break.
    pub heap: AreaView,
    /// The address at which the heap starts.
    pub heap_base: usize,
    /// The program break: the first address after the heap's bytes.
    pub brk: usize,
}

impl AddressSpaceView {
    /// Whether page `vpn` belongs to one of the mapped areas.
    pub open spec fn in_area(self, vpn: int) -> bool {
        exists|i: int| 0 <= i < self.areas.len() && #[trigger] self.areas[i].contains(vpn)
    }

    /// Whether page `vpn` belongs to the heap or to a mapped area.
    pub open spec fn covered(self, vpn: int) -> bool {
        self.heap.contains(vpn) || self.in_area(vpn)
    }

    /// Whether a mapped area shares a page with the pages `lo..hi`.
    pub open spec fn areas_intersect(self, lo: int, hi: int) -> bool {
        exists|i: int| 0 <= i < self.areas.len() && #[trigger] self.areas[i].intersects(lo, hi)
    }

    /// Whether the heap or a mapped area shares a page with `lo..hi`.
    pub open spec fn intersects(self, lo: int, hi: int) -> bool {
        self.heap.intersects(lo, hi) || self.areas_intersect(lo, hi)
    }

    /// The index in `areas` at which an area starting at `vpn` belongs.
    pub open spec fn slot(self, vpn: int) -> int {
        areas_below(self.areas, vpn)
    }

    /// The mapped areas are not empty, are ordered, and no two share a page.
    pub open spec fn areas_wf(self) -> bool {
        &&& forall|i: int|
            0 <= i < self.areas.len() ==> (#[trigger] self.areas[i]).wf() && self.areas[i].frames.len()
                > 0
        &&& forall|i: int, j: int|
            0 <= i < j < self.areas.len() ==> (#[trigger] self.areas[i]).end()
                <= (#[trigger] self.areas[j]).start
    }

    /// The heap starts at the heap base, holds exactly the pages that the
    /// bytes below the break touch, and shares no page with a mapped area.
    pub open spec fn heap_wf(self) -> bool {
        &&& self.heap.wf()
        &&& self.heap.perms == heap_perms()
        &&& self.heap_base % PAGE_SIZE == 0
        &&& self.heap.start == self.heap_base / PAGE_SIZE
        &&& self.heap_base <= self.brk
        &&& self.heap.end() == pages_for(self.brk as int)
        &&& forall|i: int|
            0 <= i < self.areas.len() ==> !(#[trigger] self.areas[i]).intersects(
                self.heap.start as int,
                self.heap.end(),
            )
    }

    /// The page table holds exactly the pages of the areas, each with its
    /// area's frame and rights, and no frame backs two pages.
    pub open spec fn table_wf(self) -> bool {
        &&& forall|v: usize| #[trigger] self.table.contains_key(v) ==> self.covered(v as int)
        &&& self.heap.mapped_in(self.table)
        &&& forall|i: int|
            0 <= i < self.areas.len() ==> (#[trigger] self.areas[i]).mapped_in(self.table)
        &&& forall|v: usize, w: usize|
            self.table.contains_key(v) && self.table.contains_key(w) && v != w ==> (
            #[trigger] self.table[v]).frame != (#[trigger] self.table[w]).frame
    }

    /// Whether the address space is well formed.
    pub open spec fn wf(self) -> bool {
        self.areas_wf() && self.heap_wf() && self.table_wf()
    }

    /// The frames that the address space uses: those that its page table
    /// names.
    pub open spec fn frames(self) -> Set<usize> {
        Set::new(
            |f: usize|
                exists|v: usize| #[trigger] self.table.contains_key(v) && self.table[v].frame == f,
        )
    }

    /// Whether every frame that the page table names is handed out by the
    /// allocator `alloc`.
    pub open spec fn backed_by(self, alloc: FrameAllocatorView) -> bool {
        forall|v: usize| #[trigger]
            self.table.contains_key(v) ==> alloc.is_allocated(self.table[v].frame)
    }

    /// Whether the pages `lo..hi` are exactly the pages of one or more whole
    /// mapped areas: every page belongs to a mapped area, and no mapped area
    /// lies only partly inside.
    pub open spec fn exactly_covered(self, lo: int, hi: int) -> bool {
        &&& lo < hi
        &&& forall|v: int| lo <= v < hi ==> #[trigger] self.in_area(v)
        &&& forall|i: int|
            0 <= i < self.areas.len() && (#[trigger] self.areas[i]).intersects(lo, hi)
                ==> self.areas[i].within(lo, hi)
    }

    /// What `mmap` answers in this state when `free` frames are free.
    pub open spec fn mmap_outcome(self, free: nat, start: usize, len: usize, bits: usize) -> Result<
        usize,
        MemError,
    > {
        let lo = start as int / PAGE_SIZE as int;
        let n = pages_for(len as int);
        if start % PAGE_SIZE != 0 {
            Err(MemError::InvalidAlignment)
        } else if !valid_perm_bits(bits) {
            Err(MemError::InvalidPermissions)
        } else if self.intersects(lo, lo + n) {
            Err(MemError::Overlap)
        } else if n > free {
            Err(MemError::OutOfMemory)
        } else {
            Ok((n * PAGE_SIZE) as usize)
        }
    }

    /// What `munmap` answers in this state.
    pub open spec fn munmap_outcome(self, start: usize, len: usize) -> Result<(), MemError> {
        let lo = start as int / PAGE_SIZE as int;
        let n = pages_for(len as int);
        if start % PAGE_SIZE != 0 {
            Err(MemError::InvalidAlignment)
        } else if !self.exactly_covered(lo, lo + n) {
            Err(MemError::NotMapped)
        } else {
            Ok(())
        }
    }

    /// What moving the break by `delta` answers in this state when `free`
    /// frames are free: the break before the move, or nothing if the move is
    /// refused.
    pub open spec fn sbrk_outcome(self, free: nat, delta: int) -> Option<usize> {
        let target = self.brk + delta;
        let new_end = pages_for(target);
        if target < self.heap_base || target > usize::MAX {
            None
        } else if new_end > self.heap.end() && (self.areas_intersect(self.heap.end(), new_end)
            || new_end - self.heap.end() > free) {
            None
        } else {
            Some(self.brk)
        }
    }
}

/// How a call of `mmap` with the answer `r` takes the address space from
/// `pre` to `post` and the allocator from `pre_alloc` to `post_alloc`.
pub open spec fn mmap_post(
    pre: AddressSpaceView,
    pre_alloc: FrameAllocatorView,
    post: AddressSpaceView,
    post_alloc: FrameAllocatorView,
    start: usize,
    len: usize,
    bits: usize,
    r: Result<usize, MemError>,
) -> bool {
    let lo = start as int / PAGE_SIZE as int;
    let n = pages_for(len as int);
    let k = pre.slot(lo);
    &&& r == pre.mmap_outcome(pre_alloc.free_count(), start, len, bits)
    &&& post_alloc.capacity == pre_alloc.capacity
    &&& if r is Ok && n > 0 {
        let a = post.areas[k];
        &&& post.areas == pre.areas.insert(k, a)
        &&& a.start == lo
        &&& a.perms == perms_of_bits(bits)
        &&& a.frames.len() == n
        &&& a.frames.no_duplicates()
        &&& forall|i: int| 0 <= i < n ==> pre_alloc.is_free(#[trigger] a.frames[i])
        &&& post.table == a.install(pre.table, 0)
        &&& post.heap == pre.heap
        &&& post.heap_base == pre.heap_base
        &&& post.brk == pre.brk
        &&& post_alloc.frames == with_fresh_frames(pre_alloc.frames, a.frames)
    } else {
        post == pre && post_alloc == pre_alloc
    }
}

/// How a call of `munmap` with the answer `r` takes the address space from
/// `pre` to `post` and the allocator from `pre_alloc` to `post_alloc`.
pub open spec fn munmap_post(
    pre: AddressSpaceView,
    pre_alloc: FrameAllocatorView,
    post: AddressSpaceView,
    post_alloc: FrameAllocatorView,
    start: usize,
    len: usize,
    r: Result<(), MemError>,
) -> bool {
    let lo = start as int / PAGE_SIZE as int;
    let hi = lo + pages_for(len as int);
    &&& r == pre.munmap_outcome(start, len)
    &&& post_alloc.capacity == pre_alloc.capacity
    &&& if r is Ok {
        &&& post.areas == pre.areas.subrange(0, pre.slot(lo)) + pre.areas.subrange(
            pre.slot(hi),
            pre.areas.len() as int,
        )
        &&& post.table == pre.table.remove_keys(page_range(lo, hi))
        &&& post.heap == pre.heap
        &&& post.heap_base == pre.heap_base
        &&& post.brk == pre.brk
        &&& post_alloc.frames == pre_alloc.frames.remove_keys(frames_of_pages(pre.table, lo, hi))
    } else {
        post == pre && post_alloc == pre_alloc
    }
}

/// How a move of the break by `delta` that was answered with `r` takes the
/// address space from `pre` to `post` and the allocator from `pre_alloc` to
/// `post_alloc`: a refused move changes nothing.
pub open spec fn sbrk_post(
    pre: AddressSpaceView,
    pre_alloc: FrameAllocatorView,
    post: AddressSpaceView,
    post_alloc: FrameAllocatorView,
    delta: int,
    r: Option<usize>,
) -> bool {
    let old_end = pre.heap.end();
    let new_end = pages_for(pre.brk + delta);
    let n = pre.heap.frames.len() as int;
    let m = new_end - pre.heap.start;
    &&& post_alloc.capacity == pre_alloc.capacity
    &&& if r is Some {
        &&& post.brk == pre.brk + delta
        &&& post.heap_base == pre.heap_base
        &&& post.areas == pre.areas
        &&& post.heap.start == pre.heap.start
        &&& post.heap.perms == pre.heap.perms
        &&& post.heap.frames.len() == m
        &&& if new_end >= old_end {
            let fresh = post.heap.frames.subrange(n, m);
            &&& post.heap.frames.subrange(0, n) == pre.heap.frames
            &&& fresh.no_duplicates()
            &&& forall|i: int| 0 <= i < m - n ==> pre_alloc.is_free(#[trigger] fresh[i])
            &&& post.table == post.heap.install(pre.table, n)
            &&& post_alloc.frames == with_fresh_frames(pre_alloc.frames, fresh)
        } else {
            &&& post.heap.frames == pre.heap.frames.subrange(0, m)
            &&& post.table == pre.table.remove_keys(page_range(new_end, old_end))
            &&& post_alloc.frames == pre_alloc.frames.remove_keys(
                pre.heap.frames.subrange(m, n).to_set(),
            )
        }
    } else {
        post == pre && post_alloc == pre_alloc
    }
}

} // verus!
