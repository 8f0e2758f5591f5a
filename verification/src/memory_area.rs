//! A contiguous run of virtual pages with one permission set, each page
//! backed by a frame that the area owns.

use vstd::prelude::*;
use crate::error::MemError;
use crate::frame_allocator::{zero_page, FrameAllocator};
use crate::page_table::{PageTable, PageTableEntry};
use crate::permissions::Permissions;

verus! {

/// The pages from `lo` up to, not including, `hi`.
pub open spec fn page_range(lo: int, hi: int) -> Set<usize> {
    Set::new(|v: usize| lo <= v < hi)
}

/// Whether `table` maps some page from `lo` up to, not including, `hi`.
pub open spec fn any_mapped(table: Map<usize, PageTableEntry>, lo: int, hi: int) -> bool {
    exists|v: usize| lo <= v < hi && #[trigger] table.contains_key(v)
}

/// The allocated frames after the frames `fresh` were handed out, zeroed.
pub open spec fn with_fresh_frames(frames: Map<usize, Seq<u8>>, fresh: Seq<usize>) -> Map<
    usize,
    Seq<u8>,
> {
    Map::new(
        |f: usize| frames.contains_key(f) || fresh.contains(f),
        |f: usize|
            if fresh.contains(f) {
                zero_page()
            } else {
                frames[f]
            },
    )
}

/// What a memory area is, mathematically: page `start + i` is backed by
/// frame `frames[i]`, and every page carries the rights `perms`.
#[verifier::ext_equal]
pub struct AreaView {
    pub start: usize,
    pub perms: Permissions,
    pub frames: Seq<usize>,
}

impl AreaView {
    /// The first page after the area.
    pub open spec fn end(self) -> int {
        self.start + self.frames.len()
    }

    /// Whether the area's pages can all be numbered.
    pub open spec fn wf(self) -> bool {
        self.end() <= usize::MAX
    }

    /// Whether page `vpn` belongs to the area.
    pub open spec fn contains(self, vpn: int) -> bool {
        self.start <= vpn < self.end()
    }

    /// Whether the area shares a page with the pages `lo..hi`.
    pub open spec fn intersects(self, lo: int, hi: int) -> bool {
        self.start < self.end() && lo < hi && self.start < hi && lo < self.end()
    }

    /// Whether the whole area lies in the pages `lo..hi`.
    pub open spec fn within(self, lo: int, hi: int) -> bool {
        lo <= self.start && self.end() <= hi
    }

    /// The page table entry that page `vpn` of the area has.
    pub open spec fn entry(self, vpn: int) -> PageTableEntry {
        PageTableEntry { frame: self.frames[vpn - self.start], perms: self.perms }
    }

    /// Whether `table` maps every page of the area to the area's frame.
    pub open spec fn mapped_in(self, table: Map<usize, PageTableEntry>) -> bool {
        forall|v: usize|
            self.contains(v as int) ==> #[trigger] table.contains_key(v) && table[v] == self.entry(
                v as int,
            )
    }

    /// `table` after the area's pages from index `from` on were entered.
    pub open spec fn install(self, table: Map<usize, PageTableEntry>, from: int) -> Map<
        usize,
        PageTableEntry,
    > {
        Map::new(
            |v: usize| table.contains_key(v) || self.start + from <= v < self.end(),
            |v: usize|
                if self.start + from <= v < self.end() {
                    self.entry(v as int)
                } else {
                    table[v]
                },
        )
    }
}

/// A run of pages and the frames that back them.
pub struct MemoryArea {
    start_vpn: usize,
    perms: Permissions,
    /// `frames[i]` backs page `start_vpn + i`.
    frames: Vec<usize>,
}

impl View for MemoryArea {
    type V = AreaView;

    closed spec fn view(&self) -> AreaView {
        AreaView { start: self.start_vpn, perms: self.perms, frames: self.frames@ }
    }
}

impl MemoryArea {
    /// Whether the area's pages can all be numbered.
    pub open spec fn wf(&self) -> bool {
        self@.wf()
    }

    /// What `grow` by `extra` pages from page `lo` answers, given the table
    /// and the number of free frames. Pages are taken one after the other,
    /// a frame first and the table entry second, so a mapped page is only
    /// met if the frames reach that far.
    pub open spec fn grow_outcome(
        table: Map<usize, PageTableEntry>,
        free: nat,
        lo: int,
        extra: int,
    ) -> Result<(), MemError> {
        let reach = if free < extra {
            free as int
        } else {
            extra
        };
        if any_mapped(table, lo, lo + reach) {
            Err(MemError::AlreadyMapped)
        } else if free < extra {
            Err(MemError::OutOfMemory)
        } else {
            Ok(())
        }
    }

    /// An area without pages that would start at `start_vpn`.
    pub fn empty(start_vpn: usize, perms: Permissions) -> (a: MemoryArea)
        ensures
            a@ == (AreaView { start: start_vpn, perms, frames: Seq::<usize>::empty() }),
            a.wf(),
    {
        MemoryArea { start_vpn, perms, frames: Vec::new() }
    }

    /// Creates the area of `page_count` pages from `start_vpn`: page by
    /// page, takes a zeroed frame from `alloc` and enters the page into
    /// `table`. If the frames run out or a page is found mapped, the frames
    /// taken so far are given back and their pages unmapped again, so that
    /// nothing is left changed.
    pub fn new(
        start_vpn: usize,
        page_count: usize,
        perms: Permissions,
        table: &mut PageTable,
        alloc: &mut FrameAllocator,
    ) -> (r: Result<MemoryArea, MemError>)
        requires
            old(alloc).wf(),
            start_vpn + page_count <= usize::MAX,
        ensures
            final(alloc).wf(),
            final(alloc)@.capacity == old(alloc)@.capacity,
            match r {
                Ok(a) => {
                    &&& Self::grow_outcome(
                        old(table)@,
                        old(alloc)@.free_count(),
                        start_vpn as int,
                        page_count as int,
                    ) is Ok
                    &&& a.wf()
                    &&& a@.start == start_vpn
                    &&& a@.perms == perms
                    &&& a@.frames.len() == page_count
                    &&& a@.frames.no_duplicates()
                    &&& forall|i: int|
                        0 <= i < page_count ==> old(alloc)@.is_free(#[trigger] a@.frames[i])
                    &&& final(table)@ == a@.install(old(table)@, 0)
                    &&& final(alloc)@.frames == with_fresh_frames(old(alloc)@.frames, a@.frames)
                },
                Err(e) => {
                    &&& Self::grow_outcome(
                        old(table)@,
                        old(alloc)@.free_count(),
                        start_vpn as int,
                        page_count as int,
                    ) == Err::<(), MemError>(e)
                    &&& final(table)@ == old(table)@
                    &&& final(alloc)@ == old(alloc)@
                },
            },
    {
        let mut area = MemoryArea { start_vpn, perms, frames: Vec::new() };
        match area.grow(page_count, table, alloc) {
            Ok(()) => {
                proof {
                    assert(area@.frames.subrange(0, page_count as int) =~= area@.frames);
                }
                Ok(area)
            },
            Err(e) => Err(e),
        }
    }

    /// The first page of the area.
    pub fn start_vpn(&self) -> (v: usize)
        ensures
            v == self@.start,
    {
        self.start_vpn
    }

    /// The first page after the area.
    pub fn end_vpn(&self) -> (v: usize)
        requires
            self.wf(),
        ensures
            v == self@.end(),
    {
        self.start_vpn + self.frames.len()
    }

    /// Number of pages in the area.
    pub fn page_count(&self) -> (n: usize)
        ensures
            n == self@.frames.len(),
    {
        self.frames.len()
    }

    /// The rights of the area's pages.
    pub fn permissions(&self) -> (p: Permissions)
        ensures
            p == self@.perms,
    {
        self.perms
    }

    /// The frame behind page `vpn`, if the page belongs to the area.
    pub fn frame_of(&self, vpn: usize) -> (r: Option<usize>)
        requires
            self.wf(),
        ensures
            r == (if self@.contains(vpn as int) {
                Some(self@.frames[vpn - self@.start])
            } else {
                None
            }),
    {
        if vpn >= self.start_vpn && vpn - self.start_vpn < self.frames.len() {
            Some(self.frames[vpn - self.start_vpn])
        } else {
            None
        }
    }

    /// Whether `alloc` has handed out every frame of the area.
    pub fn frames_allocated(&self, alloc: &FrameAllocator) -> (b: bool)
        requires
            alloc.wf(),
        ensures
            b == (forall|i: int|
                0 <= i < self@.frames.len() ==> alloc@.is_allocated(#[trigger] self@.frames[i])),
    {
        let mut i: usize = 0;
        while i < self.frames.len()
            invariant
                alloc.wf(),
                i <= self.frames@.len(),
                forall|k: int| 0 <= k < i ==> alloc@.is_allocated(#[trigger] self.frames@[k]),
            decreases self.frames@.len() - i,
        {
            if !alloc.is_allocated(self.frames[i]) {
                proof {
                    assert(!alloc@.is_allocated(self@.frames[i as int]));
                }
                return false;
            }
            i = i + 1;
        }
        true
    }

    /// Adds `extra` pages at the end of the area: page by page, takes a
    /// zeroed frame from `alloc` and enters the page into `table`. If the
    /// frames run out or a page is found mapped, the frames taken so far are
    /// given back and their pages unmapped again, so that the area, the table
    /// and the allocator are left as they were.
    pub fn grow(&mut self, extra: usize, table: &mut PageTable, alloc: &mut FrameAllocator) -> (r:
        Result<(), MemError>)
        requires
            old(self).wf(),
            old(alloc).wf(),
            old(self)@.end() + extra <= usize::MAX,
        ensures
            final(self).wf(),
            final(alloc).wf(),
            final(alloc)@.capacity == old(alloc)@.capacity,
            final(self)@.start == old(self)@.start,
            final(self)@.perms == old(self)@.perms,
            r == Self::grow_outcome(
                old(table)@,
                old(alloc)@.free_count(),
                old(self)@.end(),
                extra as int,
            ),
            r is Err ==> {
                &&& final(self)@ == old(self)@
                &&& final(table)@ == old(table)@
                &&& final(alloc)@ == old(alloc)@
            },
            r is Ok ==> {
                let n = old(self)@.frames.len() as int;
                let fresh = final(self)@.frames.subrange(n, n + extra);
                &&& final(self)@.frames.len() == n + extra
                &&& final(self)@.frames.subrange(0, n) == old(self)@.frames
                &&& fresh.no_duplicates()
                &&& forall|i: int| 0 <= i < extra ==> old(alloc)@.is_free(#[trigger] fresh[i])
                &&& final(table)@ == final(self)@.install(old(table)@, n)
                &&& final(alloc)@.frames == with_fresh_frames(old(alloc)@.frames, fresh)
            },
    {
        let base: usize = self.frames.len();
        let lo: usize = self.start_vpn + base;
        let mut i: usize = 0;
        while i < extra
            invariant
                i <= extra,
                lo + extra <= usize::MAX,
                lo == old(self)@.end(),
                base == old(self)@.frames.len(),
                self.start_vpn == old(self).start_vpn,
                self.perms == old(self).perms,
                self.frames@.len() == base + i,
                self.frames@.subrange(0, base as int) == old(self).frames@,
                !any_mapped(old(table)@, lo as int, lo + i),
                old(alloc).wf(),
                alloc.wf(),
                alloc@.capacity == old(alloc)@.capacity,
                alloc@.frames.dom().len() == old(alloc)@.frames.dom().len() + i,
                self.frames@.subrange(base as int, base + i).no_duplicates(),
                forall|k: int|
                    0 <= k < i ==> old(alloc)@.is_free(
                        #[trigger] self.frames@.subrange(base as int, base + i)[k],
                    ),
                table@ == self@.install(old(table)@, base as int),
                alloc@.frames == with_fresh_frames(
                    old(alloc)@.frames,
                    self.frames@.subrange(base as int, base + i),
                ),
            decreases extra - i,
        {
            let ghost before = *self;
            let ghost alloc_before = alloc@;
            let ghost fresh = self.frames@.subrange(base as int, base + i);
            let step = match alloc.allocate() {
                Err(e) => Err(e),
                Ok(f) => match table.map(lo + i, f, self.perms) {
                    Err(e) => {
                        alloc.release(f);
                        Err(e)
                    },
                    Ok(()) => Ok(f),
                },
            };
            match step {
                Err(e) => {
                    proof {
                        assert(table@ == before@.install(old(table)@, base as int));
                        assert(alloc@.frames =~= alloc_before.frames);
                        if e == MemError::AlreadyMapped {
                            assert(old(table)@.contains_key((lo + i) as usize));
                        }
                    }
                    self.shrink(base, table, alloc);
                    proof {
                        assert(self@.frames =~= old(self)@.frames);
                        assert(before@.frames.subrange(base as int, base + i) == fresh);
                        assert(table@ =~= old(table)@) by {
                            assert forall|v: usize| #[trigger]
                                old(table)@.contains_key(v) implies !(lo <= v < lo + i) by {}
                        }
                        assert(alloc@.frames =~= old(alloc)@.frames) by {
                            assert forall|f: usize| #[trigger]
                                old(alloc)@.frames.contains_key(f) implies !fresh.contains(f) by {
                                if fresh.contains(f) {
                                    let k = choose|k: int| 0 <= k < fresh.len() && fresh[k] == f;
                                    assert(old(alloc)@.is_free(fresh[k]));
                                }
                            }
                        }
                    }
                    return Err(e);
                },
                Ok(f) => {
                    self.frames.push(f);
                    proof {
                        let fresh2 = self.frames@.subrange(base as int, base + i + 1);
                        assert(fresh2 =~= fresh.push(f));
                        assert(self.frames@.subrange(0, base as int) =~= before.frames@.subrange(
                            0,
                            base as int,
                        ));
                        assert(!fresh.contains(f)) by {
                            if fresh.contains(f) {
                                let k = choose|k: int| 0 <= k < fresh.len() && fresh[k] == f;
                                assert(alloc_before.frames.contains_key(fresh[k]));
                            }
                        }
                        assert(fresh2.no_duplicates());
                        assert forall|k: int| 0 <= k < i + 1 implies old(alloc)@.is_free(
                            #[trigger] fresh2[k],
                        ) by {
                            if k < i {
                                assert(fresh2[k] == fresh[k]);
                            } else {
                                assert(fresh2[k] == f);
                                assert(!old(alloc)@.frames.contains_key(f));
                            }
                        }
                        assert(table@ =~= self@.install(old(table)@, base as int)) by {
                            assert forall|v: usize|
                                self@.start + base <= v < self@.end() implies #[trigger] table@[v]
                                == self@.entry(v as int) by {
                                if v < lo + i {
                                    assert(before@.entry(v as int) == self@.entry(v as int));
                                }
                            }
                        }
                        assert(alloc@.frames =~= with_fresh_frames(old(alloc)@.frames, fresh2)) by {
                            assert forall|g: usize| fresh2.contains(g) <==> (fresh.contains(g) || g
                                == f) by {
                                if fresh.contains(g) {
                                    let k = choose|k: int| 0 <= k < fresh.len() && fresh[k] == g;
                                    assert(fresh2[k] == g);
                                }
                                if g == f {
                                    assert(fresh2[i as int] == g);
                                }
                            }
                        }
                        assert(!any_mapped(old(table)@, lo as int, lo + i + 1));
                    }
                },
            }
            i = i + 1;
        }
        Ok(())
    }

    /// Drops pages from the end of the area until at most `new_count` are
    /// left: each dropped page leaves `table` and its frame goes back to
    /// `alloc`. A dropped page that `table` does not hold is passed over.
    pub fn shrink(&mut self, new_count: usize, table: &mut PageTable, alloc: &mut FrameAllocator)
        requires
            old(self).wf(),
            old(alloc).wf(),
        ensures
            final(self).wf(),
            final(alloc).wf(),
            final(alloc)@.capacity == old(alloc)@.capacity,
            final(self)@.start == old(self)@.start,
            final(self)@.perms == old(self)@.perms,
            new_count >= old(self)@.frames.len() ==> {
                &&& final(self)@ == old(self)@
                &&& final(table)@ == old(table)@
                &&& final(alloc)@ == old(alloc)@
            },
            new_count < old(self)@.frames.len() ==> {
                let n = old(self)@.frames.len() as int;
                &&& final(self)@.frames == old(self)@.frames.subrange(0, new_count as int)
                &&& final(table)@ == old(table)@.remove_keys(
                    page_range(old(self)@.start + new_count, old(self)@.end()),
                )
                &&& final(alloc)@.frames == old(alloc)@.frames.remove_keys(
                    old(self)@.frames.subrange(new_count as int, n).to_set(),
                )
            },
    {
        let ghost n = self.frames@.len() as int;
        proof {
            assert(self.frames@.subrange(0, n) =~= self.frames@);
            assert(table@.remove_keys(page_range(self@.end(), self@.end())) =~= table@);
            assert(alloc@.frames.remove_keys(self.frames@.subrange(n, n).to_set())
                =~= alloc@.frames);
        }
        while self.frames.len() > new_count
            invariant
                old(self).wf(),
                alloc.wf(),
                alloc@.capacity == old(alloc)@.capacity,
                n == old(self).frames@.len(),
                self.start_vpn == old(self).start_vpn,
                self.perms == old(self).perms,
                self.frames@.len() <= n,
                new_count < n ==> self.frames@.len() >= new_count,
                new_count >= n ==> self.frames@.len() == n,
                self.frames@ == old(self).frames@.subrange(0, self.frames@.len() as int),
                table@ == old(table)@.remove_keys(
                    page_range(old(self)@.start + self.frames@.len(), old(self)@.end()),
                ),
                alloc@.frames == old(alloc)@.frames.remove_keys(
                    old(self).frames@.subrange(self.frames@.len() as int, n).to_set(),
                ),
            decreases self.frames@.len(),
        {
            let last: usize = self.frames.len() - 1;
            let frame: usize = self.frames[last];
            let ghost table_before = table@;
            let ghost alloc_before = alloc@;
            self.frames.pop();
            let _ = table.unmap(self.start_vpn + last);
            alloc.release(frame);
            proof {
                let all = old(self).frames@;
                assert(self.frames@ =~= all.subrange(0, last as int));
                assert(table@ =~= old(table)@.remove_keys(
                    page_range(old(self)@.start + last, old(self)@.end()),
                ));
                assert(all.subrange(last as int, n).to_set() =~= all.subrange(
                    last + 1,
                    n,
                ).to_set().insert(frame)) by {
                    let a = all.subrange(last as int, n);
                    let b = all.subrange(last + 1, n);
                    assert forall|g: usize| a.contains(g) <==> (b.contains(g) || g == frame) by {
                        if a.contains(g) {
                            let k = choose|k: int| 0 <= k < a.len() && a[k] == g;
                            if k > 0 {
                                assert(b[k - 1] == g);
                            }
                        }
                        if b.contains(g) {
                            let k = choose|k: int| 0 <= k < b.len() && b[k] == g;
                            assert(a[k + 1] == g);
                        }
                        if g == frame {
                            assert(a[0] == g);
                        }
                    }
                }
                assert(alloc@.frames =~= old(alloc)@.frames.remove_keys(
                    all.subrange(last as int, n).to_set(),
                ));
            }
        }
        proof {
            if new_count >= n {
                assert(self@.frames =~= old(self)@.frames);
            }
        }
    }

    /// Gives the area up: every page leaves `table`, every frame goes back
    /// to `alloc`.
    pub fn destroy(self, table: &mut PageTable, alloc: &mut FrameAllocator)
        requires
            self.wf(),
            old(alloc).wf(),
        ensures
            final(alloc).wf(),
            final(alloc)@.capacity == old(alloc)@.capacity,
            final(table)@ == old(table)@.remove_keys(page_range(self@.start as int, self@.end())),
            final(alloc)@.frames == old(alloc)@.frames.remove_keys(self@.frames.to_set()),
    {
        let mut area = self;
        area.shrink(0, table, alloc);
        proof {
            assert(self@.frames.subrange(0, self@.frames.len() as int) =~= self@.frames);
            if self@.frames.len() == 0 {
                assert(table@.remove_keys(page_range(self@.start as int, self@.end()))
                    =~= table@);
                assert(self@.frames.to_set() =~= Set::<usize>::empty());
                assert(alloc@.frames.remove_keys(self@.frames.to_set()) =~= alloc@.frames);
            }
        }
    }
}

} // verus!
