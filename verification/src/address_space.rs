//! The virtual memory of one task: a page table, the areas made by `mmap`,
//! and a heap that follows the program break.

use vstd::prelude::*;
use crate::config::{page_count_for, pages_for, PAGE_SIZE};
use crate::error::MemError;
use crate::frame_allocator::FrameAllocator;
use crate::memory_area::{any_mapped, page_range, with_fresh_frames, AreaView, MemoryArea};
use crate::page_table::{PageTable, PageTableEntry};
use crate::permissions::Permissions;
use crate::space_model::{
    frames_of_pages, heap_perms, mmap_post, munmap_post, sbrk_post, AddressSpaceView,
};
use crate::space_proofs::{
    area_frames_from, lemma_area_frames, lemma_heap_grow, lemma_heap_shrink, lemma_insert_area,
    lemma_remove_areas, lemma_space_frames, lemma_tiles_exactly_cover, lemma_walk_stuck, tiles,
};

verus! {

/// The address space of one task.
pub struct AddressSpace {
    table: PageTable,
    /// The areas made by `mmap`, ordered by their first page.
    areas: Vec<MemoryArea>,
    /// The heap area: the pages from the heap base up to the break.
    heap: MemoryArea,
    heap_base: usize,
    brk: usize,
}

impl View for AddressSpace {
    type V = AddressSpaceView;

    closed spec fn view(&self) -> AddressSpaceView {
        AddressSpaceView {
            table: self.table@,
            areas: Seq::new(self.areas@.len(), |i: int| self.areas@[i]@),
            heap: self.heap@,
            heap_base: self.heap_base,
            brk: self.brk,
        }
    }
}

impl AddressSpace {
    /// Whether the address space is well formed: its areas are ordered and
    /// share no page, the heap holds the pages up to the break, and the page
    /// table holds exactly the pages of the areas and the heap, each with a
    /// frame of its own.
    pub open spec fn wf(&self) -> bool {
        self@.wf()
    }

    /// Whether every frame that this address space uses is handed out by
    /// `alloc`.
    pub open spec fn backed_by(&self, alloc: &FrameAllocator) -> bool {
        self@.backed_by(alloc@)
    }

    /// Every mapped area of a well-formed address space is well formed.
    proof fn lemma_areas_wf(&self)
        requires
            self.wf(),
        ensures
            forall|i: int| 0 <= i < self.areas@.len() ==> (#[trigger] self.areas@[i]).wf(),
    {
        assert forall|i: int| 0 <= i < self.areas@.len() implies (#[trigger] self.areas@[i]).wf() by {
            assert(self@.areas[i].wf());
        }
    }

    /// An address space without mappings whose heap starts, empty, at the
    /// address `heap_base`. The heap has to start a page.
    pub fn new(heap_base: usize) -> (r: Result<AddressSpace, MemError>)
        ensures
            r is Ok <==> heap_base % PAGE_SIZE == 0,
            r is Err ==> r->Err_0 == MemError::InvalidAlignment,
            r matches Ok(s) ==> {
                &&& s.wf()
                &&& s@.table == Map::<usize, PageTableEntry>::empty()
                &&& s@.areas == Seq::<AreaView>::empty()
                &&& s@.heap == (AreaView {
                    start: (heap_base / PAGE_SIZE) as usize,
                    perms: heap_perms(),
                    frames: Seq::<usize>::empty(),
                })
                &&& s@.heap_base == heap_base
                &&& s@.brk == heap_base
            },
    {
        if heap_base % PAGE_SIZE != 0 {
            return Err(MemError::InvalidAlignment);
        }
        let perms = Permissions { read: true, write: true, execute: false, user: true };
        let s = AddressSpace {
            table: PageTable::new(),
            areas: Vec::new(),
            heap: MemoryArea::empty(heap_base / PAGE_SIZE, perms),
            heap_base,
            brk: heap_base,
        };
        proof {
            assert(s@.areas =~= Seq::<AreaView>::empty());
        }
        Ok(s)
    }

    /// The program break.
    pub fn brk(&self) -> (b: usize)
        ensures
            b == self@.brk,
    {
        self.brk
    }

    /// The address at which the heap starts.
    pub fn heap_base(&self) -> (b: usize)
        ensures
            b == self@.heap_base,
    {
        self.heap_base
    }

    /// Number of pages that the heap holds.
    pub fn heap_pages(&self) -> (n: usize)
        ensures
            n == self@.heap.frames.len(),
    {
        self.heap.page_count()
    }

    /// Number of areas made by `mmap` that exist.
    pub fn area_count(&self) -> (n: usize)
        ensures
            n == self@.areas.len(),
    {
        self.areas.len()
    }

    /// The first page, the number of pages and the rights of the mapped
    /// area at position `index`, counted in the order of the first pages.
    pub fn area(&self, index: usize) -> (r: Option<(usize, usize, Permissions)>)
        ensures
            r == (if index < self@.areas.len() {
                let a = self@.areas[index as int];
                Some((a.start, a.frames.len() as usize, a.perms))
            } else {
                None
            }),
    {
        if index < self.areas.len() {
            let a = &self.areas[index];
            Some((a.start_vpn(), a.page_count(), a.permissions()))
        } else {
            None
        }
    }

    /// Whether `alloc` has handed out every frame that this address space
    /// uses. Holds as long as no frame of the address space is released
    /// behind its back.
    pub fn is_backed_by(&self, alloc: &FrameAllocator) -> (b: bool)
        requires
            self.wf(),
            alloc.wf(),
        ensures
            b == self.backed_by(alloc),
    {
        let mut i: usize = 0;
        while i < self.areas.len()
            invariant
                self.wf(),
                alloc.wf(),
                i <= self.areas@.len(),
                forall|m: int, k: int|
                    0 <= m < i && 0 <= k < self@.areas[m].frames.len() ==> alloc@.is_allocated(
                        #[trigger] self@.areas[m].frames[k],
                    ),
            decreases self.areas@.len() - i,
        {
            proof {
                assert(self@.areas[i as int] == self.areas@[i as int]@);
            }
            if !self.areas[i].frames_allocated(alloc) {
                proof {
                    let a = self@.areas[i as int];
                    let k = choose|k: int|
                        0 <= k < a.frames.len() && !alloc@.is_allocated(#[trigger] a.frames[k]);
                    let v = (a.start + k) as usize;
                    assert(a.wf());
                    assert(a.mapped_in(self@.table));
                    assert(a.contains(v as int));
                    assert(self@.table.contains_key(v));
                    assert(self@.table[v] == a.entry(v as int));
                }
                return false;
            }
            i = i + 1;
        }
        if !self.heap.frames_allocated(alloc) {
            proof {
                let a = self@.heap;
                let k = choose|k: int|
                    0 <= k < a.frames.len() && !alloc@.is_allocated(#[trigger] a.frames[k]);
                let v = (a.start + k) as usize;
                assert(a.contains(v as int));
                assert(self@.table.contains_key(v));
                assert(self@.table[v] == a.entry(v as int));
            }
            return false;
        }
        proof {
            assert forall|v: usize| #[trigger] self@.table.contains_key(v) implies alloc@.is_allocated(
                self@.table[v].frame,
            ) by {
                assert(self@.covered(v as int));
                if self@.heap.contains(v as int) {
                    assert(self@.table[v] == self@.heap.entry(v as int));
                    assert(alloc@.is_allocated(self@.heap.frames[v - self@.heap.start]));
                } else {
                    let m = choose|m: int|
                        0 <= m < self@.areas.len() && (#[trigger] self@.areas[m]).contains(
                            v as int,
                        );
                    let a = self@.areas[m];
                    assert(a.mapped_in(self@.table));
                    assert(self@.table[v] == a.entry(v as int));
                    assert(alloc@.is_allocated(self@.areas[m].frames[v - a.start]));
                }
            }
        }
        true
    }

    /// Looks page `vpn` up in the page table: its frame and rights if the
    /// page is mapped.
    pub fn translate(&self, vpn: usize) -> (r: Option<(usize, Permissions)>)
        ensures
            r == (if self@.table.contains_key(vpn) {
                Some((self@.table[vpn].frame, self@.table[vpn].perms))
            } else {
                None
            }),
    {
        self.table.translate(vpn)
    }

    /// Reserves the pages that hold the `len` bytes from the page-aligned
    /// address `start`, for user code, with the rights of the bit-set `bits`
    /// (`PERM_READ`, `PERM_WRITE`, `PERM_EXEC`). Each page gets a frame of
    /// zero bytes. Returns the number of bytes reserved, a whole number of
    /// pages; for `len == 0` that is none, and nothing is recorded.
    ///
    /// Refused, in this order, with nothing changed: a `start` that is not
    /// page-aligned; an empty bit-set or unknown bits; a range that shares a
    /// page with the heap or an existing area; too few free frames.
    pub fn mmap(&mut self, alloc: &mut FrameAllocator, start: usize, len: usize, bits: usize) -> (r:
        Result<usize, MemError>)
        requires
            old(self).wf(),
            old(alloc).wf(),
            old(self).backed_by(old(alloc)),
        ensures
            final(self).wf(),
            final(alloc).wf(),
            final(self).backed_by(final(alloc)),
            mmap_post(old(self)@, old(alloc)@, final(self)@, final(alloc)@, start, len, bits, r),
    {
        if start % PAGE_SIZE != 0 {
            return Err(MemError::InvalidAlignment);
        }
        let perms = match Permissions::from_bits(bits) {
            Ok(p) => p,
            Err(e) => {
                return Err(e);
            },
        };
        let lo: usize = start / PAGE_SIZE;
        let n: usize = page_count_for(len);
        if n == 0 {
            proof {
                assert(!self@.areas_intersect(lo as int, lo as int));
            }
            return Ok(0);
        }
        let hi: usize = lo + n;
        if self.heap.page_count() > 0 && self.heap.start_vpn() < hi && lo < self.heap.end_vpn() {
            return Err(MemError::Overlap);
        }
        proof {
            self.lemma_areas_wf();
        }
        let mut k: usize = 0;
        while k < self.areas.len() && self.areas[k].end_vpn() <= lo
            invariant
                *self == *old(self),
                self.wf(),
                forall|i: int| 0 <= i < self.areas@.len() ==> (#[trigger] self.areas@[i]).wf(),
                k <= self.areas@.len(),
                forall|i: int| 0 <= i < k ==> (#[trigger] self@.areas[i]).end() <= lo,
            decreases self.areas@.len() - k,
        {
            k = k + 1;
        }
        if k < self.areas.len() && self.areas[k].start_vpn() < hi {
            proof {
                assert(self@.areas[k as int].intersects(lo as int, hi as int));
            }
            return Err(MemError::Overlap);
        }
        proof {
            assert forall|i: int| k <= i < self@.areas.len() implies hi <= (
            #[trigger] self@.areas[i]).start by {
                if i > k {
                    assert(self@.areas[k as int].end() <= self@.areas[i].start);
                }
            }
            assert(!self@.areas_intersect(lo as int, hi as int)) by {
                if self@.areas_intersect(lo as int, hi as int) {
                    let i = choose|i: int|
                        0 <= i < self@.areas.len() && (#[trigger] self@.areas[i]).intersects(
                            lo as int,
                            hi as int,
                        );
                    assert(self@.areas[i].intersects(lo as int, hi as int));
                }
            }
            assert(!any_mapped(self@.table, lo as int, hi as int)) by {
                if any_mapped(self@.table, lo as int, hi as int) {
                    let v = choose|v: usize|
                        lo <= v < hi && #[trigger] self@.table.contains_key(v);
                    assert(self@.covered(v as int));
                    if self@.in_area(v as int) {
                        let i = choose|i: int|
                            0 <= i < self@.areas.len() && (#[trigger] self@.areas[i]).contains(
                                v as int,
                            );
                        assert(self@.areas[i].intersects(lo as int, hi as int));
                    }
                }
            }
        }
        match MemoryArea::new(lo, n, perms, &mut self.table, alloc) {
            Err(e) => Err(e),
            Ok(area) => {
                let ghost a = area@;
                self.areas.insert(k, area);
                proof {
                    assert(self@.areas =~= old(self)@.areas.insert(k as int, a));
                    lemma_insert_area(old(self)@, old(alloc)@, self@, alloc@, k as int, a);
                }
                Ok(n * PAGE_SIZE)
            },
        }
    }

    /// Gives up the pages that hold the `len` bytes from the page-aligned
    /// address `start`: they leave the page table, their frames go back to
    /// `alloc`, and the areas that held them leave the address space.
    ///
    /// The pages have to be exactly those of one or more whole areas made by
    /// `mmap`. An empty range, a page that belongs to no such area (a heap
    /// page too), or an area that lies only partly in the range is refused
    /// with `NotMapped`; a `start` that is not page-aligned with
    /// `InvalidAlignment`. A refused call changes nothing.
    pub fn munmap(&mut self, alloc: &mut FrameAllocator, start: usize, len: usize) -> (r: Result<
        (),
        MemError,
    >)
        requires
            old(self).wf(),
            old(alloc).wf(),
            old(self).backed_by(old(alloc)),
        ensures
            final(self).wf(),
            final(alloc).wf(),
            final(self).backed_by(final(alloc)),
            munmap_post(old(self)@, old(alloc)@, final(self)@, final(alloc)@, start, len, r),
    {
        if start % PAGE_SIZE != 0 {
            return Err(MemError::InvalidAlignment);
        }
        let lo: usize = start / PAGE_SIZE;
        let n: usize = page_count_for(len);
        if n == 0 {
            return Err(MemError::NotMapped);
        }
        let hi: usize = lo + n;
        proof {
            self.lemma_areas_wf();
        }
        let count: usize = self.areas.len();
        let mut i: usize = 0;
        while i < count && self.areas[i].end_vpn() <= lo
            invariant
                *self == *old(self),
                self.wf(),
                count == self.areas@.len(),
                forall|m: int| 0 <= m < self.areas@.len() ==> (#[trigger] self.areas@[m]).wf(),
                i <= count,
                forall|m: int| 0 <= m < i ==> (#[trigger] self@.areas[m]).end() <= lo,
            decreases count - i,
        {
            i = i + 1;
        }
        let mut j: usize = i;
        let mut cur: usize = lo;
        while j < count && cur < hi && self.areas[j].start_vpn() == cur && self.areas[j].end_vpn()
            <= hi
            invariant
                *self == *old(self),
                self.wf(),
                count == self.areas@.len(),
                forall|m: int| 0 <= m < self.areas@.len() ==> (#[trigger] self.areas@[m]).wf(),
                i <= j <= count,
                lo <= cur <= hi,
                j == i ==> cur == lo,
                j > i ==> tiles(
                    self@.areas,
                    i as int,
                    j as int,
                    lo as int,
                    cur as int,
                ),
            decreases count - j,
        {
            cur = self.areas[j].end_vpn();
            j = j + 1;
        }
        if cur != hi {
            proof {
                lemma_walk_stuck(self@, i as int, j as int, lo as int, hi as int, cur as int);
            }
            return Err(MemError::NotMapped);
        }
        proof {
            lemma_tiles_exactly_cover(self@, i as int, j as int, lo as int, hi as int);
            assert(self.table@.remove_keys(page_range(hi as int, hi as int)) =~= self.table@);
            assert(frames_of_pages(self@.table, hi as int, hi as int) =~= Set::<usize>::empty());
            assert(alloc@.frames.remove_keys(frames_of_pages(self@.table, hi as int, hi as int))
                =~= alloc@.frames);
            assert(self@.areas =~= self@.areas.subrange(0, j as int) + self@.areas.subrange(
                j as int,
                count as int,
            ));
        }
        let mut k: usize = j;
        while k > i
            invariant
                old(self).wf(),
                old(alloc).wf(),
                tiles(
                    old(self)@.areas,
                    i as int,
                    j as int,
                    lo as int,
                    hi as int,
                ),
                count == old(self)@.areas.len(),
                i <= k <= j,
                self.areas@.len() == k + count - j,
                alloc.wf(),
                alloc@.capacity == old(alloc)@.capacity,
                self.heap == old(self).heap,
                self.heap_base == old(self).heap_base,
                self.brk == old(self).brk,
                self@.areas == old(self)@.areas.subrange(0, k as int) + old(self)@.areas.subrange(
                    j as int,
                    count as int,
                ),
                self.table@ == old(self)@.table.remove_keys(
                    page_range(
                        if k == j {
                            hi as int
                        } else {
                            old(self)@.areas[k as int].start as int
                        },
                        hi as int,
                    ),
                ),
                alloc@.frames == old(alloc)@.frames.remove_keys(
                    frames_of_pages(
                        old(self)@.table,
                        if k == j {
                            hi as int
                        } else {
                            old(self)@.areas[k as int].start as int
                        },
                        hi as int,
                    ),
                ),
            decreases k,
        {
            let ghost bound = if k == j {
                hi as int
            } else {
                old(self)@.areas[k as int].start as int
            };
            let ghost before = self@;
            let ghost before_areas = self.areas@;
            k = k - 1;
            let area = self.areas.remove(k);
            let ghost a = area@;
            proof {
                assert(before.areas[k as int] == before_areas[k as int]@);
                assert(before.areas[k as int] == a);
                assert(a == old(self)@.areas[k as int]);
                assert(a.wf());
                assert(a.mapped_in(old(self)@.table));
                assert(a.end() == bound) by {
                    if k + 1 < j {
                        assert(old(self)@.areas[k as int].end() == old(self)@.areas[k + 1].start);
                    }
                }
                assert forall|m: int| 0 <= m < self@.areas.len() implies #[trigger] self@.areas[m]
                    == (old(self)@.areas.subrange(0, k as int) + old(self)@.areas.subrange(
                    j as int,
                    count as int,
                ))[m] by {
                    if m < k {
                        assert(self.areas@[m] == before_areas[m]);
                        assert(before.areas[m] == before_areas[m]@);
                    } else {
                        assert(self.areas@[m] == before_areas[m + 1]);
                        assert(before.areas[m + 1] == before_areas[m + 1]@);
                    }
                }
                assert(self@.areas =~= old(self)@.areas.subrange(0, k as int)
                    + old(self)@.areas.subrange(j as int, count as int));
                lemma_area_frames(a, old(self)@.table);
            }
            area.destroy(&mut self.table, alloc);
            proof {
                let t = old(self)@.table;
                assert(self.table@ =~= t.remove_keys(page_range(a.start as int, hi as int)));
                assert(frames_of_pages(t, a.start as int, hi as int) =~= frames_of_pages(
                    t,
                    bound,
                    hi as int,
                ).union(frames_of_pages(t, a.start as int, a.end()))) by {
                    assert forall|f: usize|
                        frames_of_pages(t, a.start as int, hi as int).contains(f) implies (
                        frames_of_pages(t, bound, hi as int).contains(f) || frames_of_pages(
                            t,
                            a.start as int,
                            a.end(),
                        ).contains(f)) by {
                        let v = choose|v: usize|
                            a.start <= v < hi && #[trigger] t.contains_key(v) && t[v].frame == f;
                        if v < bound {
                            assert(t.contains_key(v) && t[v].frame == f);
                        }
                    }
                }
                assert(alloc@.frames =~= old(alloc)@.frames.remove_keys(
                    frames_of_pages(t, a.start as int, hi as int),
                ));
            }
        }
        proof {
            lemma_remove_areas(
                old(self)@,
                old(alloc)@,
                self@,
                alloc@,
                i as int,
                j as int,
                lo as int,
                hi as int,
            );
        }
        Ok(())
    }

    /// Moves the program break by `delta` bytes, up or down, and returns
    /// the break as it was before. The heap gains the pages that the bytes
    /// below the new break newly touch, each with a frame of zero bytes, or
    /// loses the pages they no longer touch, whose frames go back to `alloc`.
    ///
    /// The move is refused, with nothing changed, if the new break would lie
    /// below the heap base or beyond the last address, or if the heap would
    /// have to gain a page that belongs to a mapped area, or more pages than
    /// there are free frames.
    pub fn sbrk(&mut self, alloc: &mut FrameAllocator, delta: isize) -> (r: Option<usize>)
        requires
            old(self).wf(),
            old(alloc).wf(),
            old(self).backed_by(old(alloc)),
        ensures
            final(self).wf(),
            final(alloc).wf(),
            final(self).backed_by(final(alloc)),
            r == old(self)@.sbrk_outcome(old(alloc)@.free_count(), delta as int),
            sbrk_post(old(self)@, old(alloc)@, final(self)@, final(alloc)@, delta as int, r),
    {
        let old_brk: usize = self.brk;
        let target: usize = if delta >= 0 {
            let up: usize = delta as usize;
            if up > usize::MAX - old_brk {
                return None;
            }
            old_brk + up
        } else {
            let down: usize = (-(delta + 1)) as usize + 1;
            if down > old_brk - self.heap_base {
                return None;
            }
            old_brk - down
        };
        let new_end: usize = page_count_for(target);
        let old_end: usize = self.heap.end_vpn();
        if new_end > old_end {
            let count: usize = self.areas.len();
            let mut i: usize = 0;
            while i < count
                invariant
                    *self == *old(self),
                    *alloc == *old(alloc),
                    self.wf(),
                    alloc.wf(),
                    self.backed_by(alloc),
                    count == self.areas@.len(),
                    i <= count,
                    self@.heap_base <= self@.brk + delta <= usize::MAX,
                    new_end == pages_for(self@.brk + delta),
                    old_end == self@.heap.end(),
                    old_end < new_end,
                    forall|m: int|
                        0 <= m < i ==> !(#[trigger] self@.areas[m]).intersects(
                            old_end as int,
                            new_end as int,
                        ),
                decreases count - i,
            {
                proof {
                    self.lemma_areas_wf();
                    assert(self@.areas[i as int] == self.areas@[i as int]@);
                    assert(self@.areas[i as int].frames.len() > 0);
                }
                if self.areas[i].start_vpn() < new_end && old_end < self.areas[i].end_vpn() {
                    proof {
                        assert(self@.areas[i as int].intersects(old_end as int, new_end as int));
                    }
                    return None;
                }
                i = i + 1;
            }
            proof {
                assert(!self@.areas_intersect(old_end as int, new_end as int));
                assert(!any_mapped(self@.table, old_end as int, new_end as int)) by {
                    if any_mapped(self@.table, old_end as int, new_end as int) {
                        let v = choose|v: usize|
                            old_end <= v < new_end && #[trigger] self@.table.contains_key(v);
                        assert(self@.covered(v as int));
                        if self@.in_area(v as int) {
                            let m = choose|m: int|
                                0 <= m < self@.areas.len() && (#[trigger] self@.areas[m]).contains(
                                    v as int,
                                );
                            assert(self@.areas[m].intersects(old_end as int, new_end as int));
                        }
                    }
                }
            }
            match self.heap.grow(new_end - old_end, &mut self.table, alloc) {
                Err(_) => {
                    return None;
                },
                Ok(()) => {},
            }
            self.brk = target;
            proof {
                let n = old(self)@.heap.frames.len() as int;
                let m = self@.heap.frames.len() as int;
                let fresh = self@.heap.frames.subrange(n, m);
                assert forall|i: int| n <= i < m implies old(alloc)@.is_free(
                    #[trigger] self@.heap.frames[i],
                ) by {
                    assert(fresh[i - n] == self@.heap.frames[i]);
                }
                lemma_heap_grow(old(self)@, old(alloc)@, self@, alloc@);
            }
        } else {
            let keep: usize = new_end - self.heap.start_vpn();
            self.heap.shrink(keep, &mut self.table, alloc);
            self.brk = target;
            proof {
                let n = old(self)@.heap.frames.len() as int;
                if keep >= n {
                    assert(self@.heap.frames =~= old(self)@.heap.frames.subrange(0, n));
                    assert(self@.table =~= old(self)@.table.remove_keys(
                        page_range(new_end as int, old_end as int),
                    ));
                    assert(old(self)@.heap.frames.subrange(n, n).to_set() =~= Set::<
                        usize,
                    >::empty());
                    assert(alloc@.frames =~= old(alloc)@.frames.remove_keys(
                        old(self)@.heap.frames.subrange(n, n).to_set(),
                    ));
                    assert(self@.table =~= self@.heap.install(old(self)@.table, n));
                    assert(alloc@.frames =~= with_fresh_frames(
                        old(alloc)@.frames,
                        self@.heap.frames.subrange(n, n),
                    ));
                }
                lemma_heap_shrink(old(self)@, old(alloc)@, self@, alloc@);
            }
        }
        Some(old_brk)
    }

    /// Tears the address space down: every frame that it uses goes back to
    /// `alloc`.
    pub fn destroy(self, alloc: &mut FrameAllocator)
        requires
            self.wf(),
            old(alloc).wf(),
        ensures
            final(alloc).wf(),
            final(alloc)@.capacity == old(alloc)@.capacity,
            final(alloc)@.frames == old(alloc)@.frames.remove_keys(self@.frames()),
    {
        let mut space = self;
        proof {
            self.lemma_areas_wf();
            assert(area_frames_from(self@.areas, self@.areas.len() as int) =~= Set::<
                usize,
            >::empty());
            assert(alloc@.frames.remove_keys(Set::<usize>::empty()) =~= alloc@.frames);
        }
        while space.areas.len() > 0
            invariant
                self.wf(),
                alloc.wf(),
                alloc@.capacity == old(alloc)@.capacity,
                space.heap == self.heap,
                space.areas@.len() <= self.areas@.len(),
                forall|m: int| 0 <= m < space.areas@.len() ==> space.areas@[m] == self.areas@[m],
                forall|m: int| 0 <= m < self.areas@.len() ==> (#[trigger] self.areas@[m]).wf(),
                alloc@.frames == old(alloc)@.frames.remove_keys(
                    area_frames_from(self@.areas, space.areas@.len() as int),
                ),
            decreases space.areas@.len(),
        {
            let ghost k = space.areas@.len() - 1;
            match space.areas.pop() {
                Some(area) => {
                    proof {
                        assert(area == self.areas@[k]);
                        assert(self@.areas[k] == area@);
                    }
                    area.destroy(&mut space.table, alloc);
                    proof {
                        assert(area_frames_from(self@.areas, k) =~= area_frames_from(
                            self@.areas,
                            k + 1,
                        ).union(area@.frames.to_set())) by {
                            assert forall|f: usize|
                                area_frames_from(self@.areas, k).contains(f) implies (
                                area_frames_from(self@.areas, k + 1).contains(f)
                                    || area@.frames.contains(f)) by {
                                let m = choose|m: int|
                                    k <= m < self@.areas.len() && (
                                    #[trigger] self@.areas[m]).frames.contains(f);
                                if m > k {
                                    assert(self@.areas[m].frames.contains(f));
                                }
                            }
                            assert forall|f: usize|
                                area_frames_from(self@.areas, k + 1).contains(f) implies area_frames_from(
                                self@.areas,
                                k,
                            ).contains(f) by {
                                let m = choose|m: int|
                                    k + 1 <= m < self@.areas.len() && (
                                    #[trigger] self@.areas[m]).frames.contains(f);
                                assert(self@.areas[m].frames.contains(f));
                            }
                            assert forall|f: usize|
                                area@.frames.contains(f) implies area_frames_from(
                                self@.areas,
                                k,
                            ).contains(f) by {
                                assert(self@.areas[k].frames.contains(f));
                            }
                        }
                        assert(alloc@.frames =~= old(alloc)@.frames.remove_keys(
                            area_frames_from(self@.areas, k),
                        ));
                    }
                },
                None => {},
            }
        }
        space.heap.destroy(&mut space.table, alloc);
        proof {
            lemma_space_frames(self@);
            assert(alloc@.frames =~= old(alloc)@.frames.remove_keys(self@.frames()));
        }
    }
}

} // verus!
