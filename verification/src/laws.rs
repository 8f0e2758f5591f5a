//! What holds of the memory operations taken together, proved from what
//! each of them promises.

use vstd::prelude::*;
use crate::config::{pages_for, PAGE_SIZE};
use crate::error::MemError;
use crate::frame_allocator::FrameAllocatorView;
use crate::memory_area::with_fresh_frames;
use crate::page_table::PageTableEntry;
use crate::space_model::{
    areas_below, frames_of_pages, mmap_post, munmap_post, sbrk_post, AddressSpaceView,
};
use crate::space_proofs::{lemma_area_frames, lemma_insert_area, lemma_tiles_exactly_cover, tiles};
use crate::user_copy::{
    byte_accessible, range_accessible, read_user_post, user_bytes, write_user_post,
};

verus! {

/// In well-formed areas, those that start below `vpn` come first:
/// `areas_below` is the position that parts them from the rest.
pub proof fn lemma_areas_below_parts(space: AddressSpaceView, vpn: int)
    requires
        space.areas_wf(),
    ensures
        0 <= space.slot(vpn) <= space.areas.len(),
        forall|i: int| 0 <= i < space.slot(vpn) ==> (#[trigger] space.areas[i]).start < vpn,
        forall|i: int|
            space.slot(vpn) <= i < space.areas.len() ==> (#[trigger] space.areas[i]).start >= vpn,
    decreases space.areas.len(),
{
    let areas = space.areas;
    if areas.len() > 0 {
        let rest = AddressSpaceView { areas: areas.drop_last(), ..space };
        assert forall|i: int, j: int| 0 <= i < j < rest.areas.len() implies (
        #[trigger] rest.areas[i]).end() <= (#[trigger] rest.areas[j]).start by {
            assert(areas[i].end() <= areas[j].start);
        }
        assert forall|i: int| 0 <= i < rest.areas.len() implies (#[trigger] rest.areas[i]).wf()
            && rest.areas[i].frames.len() > 0 by {
            assert(areas[i].wf());
        }
        lemma_areas_below_parts(rest, vpn);
        let k = areas_below(rest.areas, vpn);
        let last = areas.len() - 1;
        if areas.last().start < vpn {
            assert forall|i: int| 0 <= i < last implies (#[trigger] areas[i]).start < vpn by {
                assert(areas[i].end() <= areas[last].start);
            }
            if k < last {
                assert(rest.areas[k].start >= vpn);
                assert(areas[k] == rest.areas[k]);
            }
            assert forall|i: int| 0 <= i < space.slot(vpn) implies (#[trigger] space.areas[i]).start
                < vpn by {}
        } else {
            assert forall|i: int| 0 <= i < k implies (#[trigger] areas[i]).start < vpn by {
                assert(areas[i] == rest.areas[i]);
            }
            assert forall|i: int| k <= i < areas.len() implies (#[trigger] areas[i]).start
                >= vpn by {
                if i < last {
                    assert(areas[i] == rest.areas[i]);
                }
            }
        }
    }
}

/// What a successful `mmap` of at least one page leaves behind is a
/// well-formed address space whose frames are handed out, in which the new
/// area stands alone on its pages.
pub proof fn lemma_mmap_result(
    pre: AddressSpaceView,
    pre_alloc: FrameAllocatorView,
    post: AddressSpaceView,
    post_alloc: FrameAllocatorView,
    start: usize,
    len: usize,
    bits: usize,
    r: Result<usize, MemError>,
)
    requires
        pre.wf(),
        pre.backed_by(pre_alloc),
        mmap_post(pre, pre_alloc, post, post_alloc, start, len, bits, r),
        r is Ok,
        len > 0,
    ensures
        post.wf(),
        post.backed_by(post_alloc),
        0 <= pre.slot(start as int / PAGE_SIZE as int) <= pre.areas.len(),
        tiles(
            post.areas,
            pre.slot(start as int / PAGE_SIZE as int),
            pre.slot(start as int / PAGE_SIZE as int) + 1,
            start as int / PAGE_SIZE as int,
            start as int / PAGE_SIZE as int + pages_for(len as int),
        ),
        forall|v: usize|
            start as int / PAGE_SIZE as int <= v < start as int / PAGE_SIZE as int + pages_for(
                len as int,
            ) ==> !pre.table.contains_key(v),
{
    let lo = start as int / PAGE_SIZE as int;
    let n = pages_for(len as int);
    let hi = lo + n;
    let k = pre.slot(lo);
    let a = post.areas[k];
    lemma_areas_below_parts(pre, lo);
    assert(!pre.intersects(lo, hi));
    assert forall|i: int| 0 <= i < pre.areas.len() implies !(#[trigger] pre.areas[i]).intersects(
        lo,
        hi,
    ) by {
        if pre.areas[i].intersects(lo, hi) {
            assert(pre.areas_intersect(lo, hi));
        }
    }
    assert forall|i: int| 0 <= i < k implies (#[trigger] pre.areas[i]).end() <= a.start by {
        assert(!pre.areas[i].intersects(lo, hi));
        assert(pre.areas[i].frames.len() > 0);
    }
    assert forall|i: int| k <= i < pre.areas.len() implies a.end() <= (
    #[trigger] pre.areas[i]).start by {
        assert(!pre.areas[i].intersects(lo, hi));
        assert(pre.areas[i].frames.len() > 0);
    }
    lemma_insert_area(pre, pre_alloc, post, post_alloc, k, a);
    assert forall|v: usize| lo <= v < hi implies !pre.table.contains_key(v) by {
        if pre.table.contains_key(v) {
            assert(pre.covered(v as int));
            if pre.in_area(v as int) {
                let i = choose|i: int|
                    0 <= i < pre.areas.len() && (#[trigger] pre.areas[i]).contains(v as int);
                assert(pre.areas[i].intersects(lo, hi));
            }
        }
    }
}

/// A mapping that is made and at once given up again, with the same start
/// and the same length of at least one byte, leaves the address space and
/// the allocator exactly as they were before the two calls: the same areas,
/// the same page table, the same frames handed out.
pub proof fn law_mmap_munmap_round_trip(
    pre: AddressSpaceView,
    pre_alloc: FrameAllocatorView,
    mid: AddressSpaceView,
    mid_alloc: FrameAllocatorView,
    post: AddressSpaceView,
    post_alloc: FrameAllocatorView,
    start: usize,
    len: usize,
    bits: usize,
    mapped: Result<usize, MemError>,
    unmapped: Result<(), MemError>,
)
    requires
        pre.wf(),
        pre.backed_by(pre_alloc),
        len > 0,
        mmap_post(pre, pre_alloc, mid, mid_alloc, start, len, bits, mapped),
        mapped is Ok,
        munmap_post(mid, mid_alloc, post, post_alloc, start, len, unmapped),
    ensures
        unmapped is Ok,
        post == pre,
        post_alloc == pre_alloc,
{
    let lo = start as int / PAGE_SIZE as int;
    let hi = lo + pages_for(len as int);
    let k = pre.slot(lo);
    let a = mid.areas[k];
    lemma_mmap_result(pre, pre_alloc, mid, mid_alloc, start, len, bits, mapped);
    lemma_tiles_exactly_cover(mid, k, k + 1, lo, hi);
    assert(post.areas =~= pre.areas);
    assert(post.table =~= pre.table);
    assert(a.mapped_in(mid.table));
    lemma_area_frames(a, mid.table);
    assert(post_alloc.frames =~= pre_alloc.frames) by {
        assert forall|f: usize| pre_alloc.frames.contains_key(f) implies !a.frames.contains(f) by {
            if a.frames.contains(f) {
                let i = choose|i: int| 0 <= i < a.frames.len() && a.frames[i] == f;
                assert(pre_alloc.is_free(a.frames[i]));
            }
        }
    }
}

/// `mmap` with a start that is not page-aligned is refused, whatever the
/// rest of the request, and changes nothing.
pub proof fn law_mmap_unaligned_start_fails(
    pre: AddressSpaceView,
    pre_alloc: FrameAllocatorView,
    post: AddressSpaceView,
    post_alloc: FrameAllocatorView,
    start: usize,
    len: usize,
    bits: usize,
    r: Result<usize, MemError>,
)
    requires
        mmap_post(pre, pre_alloc, post, post_alloc, start, len, bits, r),
        start % PAGE_SIZE != 0,
    ensures
        r == Err::<usize, MemError>(MemError::InvalidAlignment),
        post == pre,
        post_alloc == pre_alloc,
{
}

/// `mmap` with the permission bits `0` is refused and changes nothing.
pub proof fn law_mmap_without_permission_fails(
    pre: AddressSpaceView,
    pre_alloc: FrameAllocatorView,
    post: AddressSpaceView,
    post_alloc: FrameAllocatorView,
    start: usize,
    len: usize,
    r: Result<usize, MemError>,
)
    requires
        mmap_post(pre, pre_alloc, post, post_alloc, start, len, 0, r),
    ensures
        r is Err,
        start % PAGE_SIZE == 0 ==> r == Err::<usize, MemError>(MemError::InvalidPermissions),
        post == pre,
        post_alloc == pre_alloc,
{
}

/// After a mapping was made, a request for pages of which one belongs to
/// it is refused and changes nothing: neither the area just made nor any
/// other.
pub proof fn law_mmap_over_a_mapping_fails(
    pre: AddressSpaceView,
    pre_alloc: FrameAllocatorView,
    mid: AddressSpaceView,
    mid_alloc: FrameAllocatorView,
    post: AddressSpaceView,
    post_alloc: FrameAllocatorView,
    start: usize,
    len: usize,
    bits: usize,
    first: Result<usize, MemError>,
    start2: usize,
    len2: usize,
    bits2: usize,
    second: Result<usize, MemError>,
    page: int,
)
    requires
        pre.wf(),
        pre.backed_by(pre_alloc),
        mmap_post(pre, pre_alloc, mid, mid_alloc, start, len, bits, first),
        first is Ok,
        mmap_post(mid, mid_alloc, post, post_alloc, start2, len2, bits2, second),
        start as int / PAGE_SIZE as int <= page < start as int / PAGE_SIZE as int + pages_for(
            len as int,
        ),
        start2 as int / PAGE_SIZE as int <= page < start2 as int / PAGE_SIZE as int + pages_for(
            len2 as int,
        ),
    ensures
        second is Err,
        post == mid,
        post_alloc == mid_alloc,
{
    let k = pre.slot(start as int / PAGE_SIZE as int);
    lemma_mmap_result(pre, pre_alloc, mid, mid_alloc, start, len, bits, first);
    let lo2 = start2 as int / PAGE_SIZE as int;
    let hi2 = lo2 + pages_for(len2 as int);
    assert(mid.areas[k].intersects(lo2, hi2));
    assert(mid.areas_intersect(lo2, hi2));
}

/// A request for pages of which one belongs to the heap or to an existing
/// area is refused and changes nothing.
pub proof fn law_mmap_over_an_area_fails(
    pre: AddressSpaceView,
    pre_alloc: FrameAllocatorView,
    post: AddressSpaceView,
    post_alloc: FrameAllocatorView,
    start: usize,
    len: usize,
    bits: usize,
    r: Result<usize, MemError>,
    page: int,
)
    requires
        mmap_post(pre, pre_alloc, post, post_alloc, start, len, bits, r),
        pre.covered(page),
        start as int / PAGE_SIZE as int <= page < start as int / PAGE_SIZE as int + pages_for(
            len as int,
        ),
    ensures
        r is Err,
        post == pre,
        post_alloc == pre_alloc,
{
    let lo = start as int / PAGE_SIZE as int;
    let hi = lo + pages_for(len as int);
    if pre.in_area(page) {
        let i = choose|i: int| 0 <= i < pre.areas.len() && (#[trigger] pre.areas[i]).contains(page);
        assert(pre.areas[i].intersects(lo, hi));
    }
}

/// The set that holds the frames `fresh` more than the finite set `dom`
/// did is that many larger, if the frames are all different and new.
pub proof fn lemma_fresh_frames_count(frames: Map<usize, Seq<u8>>, fresh: Seq<usize>)
    requires
        frames.dom().finite(),
        fresh.no_duplicates(),
        forall|i: int| 0 <= i < fresh.len() ==> !frames.contains_key(#[trigger] fresh[i]),
    ensures
        with_fresh_frames(frames, fresh).dom().finite(),
        with_fresh_frames(frames, fresh).dom().len() == frames.dom().len() + fresh.len(),
    decreases fresh.len(),
{
    if fresh.len() == 0 {
        assert(with_fresh_frames(frames, fresh).dom() =~= frames.dom());
    } else {
        let rest = fresh.drop_last();
        let f = fresh.last();
        lemma_fresh_frames_count(frames, rest);
        assert(!rest.contains(f)) by {
            if rest.contains(f) {
                let i = choose|i: int| 0 <= i < rest.len() && rest[i] == f;
                assert(fresh[i] == fresh[fresh.len() - 1]);
            }
        }
        assert(with_fresh_frames(frames, fresh).dom() =~= with_fresh_frames(
            frames,
            rest,
        ).dom().insert(f)) by {
            assert forall|g: usize| fresh.contains(g) <==> (rest.contains(g) || g == f) by {
                if fresh.contains(g) {
                    let i = choose|i: int| 0 <= i < fresh.len() && fresh[i] == g;
                    if i < rest.len() {
                        assert(rest[i] == g);
                    }
                }
                if rest.contains(g) {
                    let i = choose|i: int| 0 <= i < rest.len() && rest[i] == g;
                    assert(fresh[i] == g);
                }
                if g == f {
                    assert(fresh[fresh.len() - 1] == g);
                }
            }
        }
    }
}

/// A successful `mmap` takes exactly one free frame for each page that
/// it maps.
pub proof fn law_mmap_takes_a_frame_per_page(
    pre: AddressSpaceView,
    pre_alloc: FrameAllocatorView,
    post: AddressSpaceView,
    post_alloc: FrameAllocatorView,
    start: usize,
    len: usize,
    bits: usize,
    r: Result<usize, MemError>,
)
    requires
        pre_alloc.wf(),
        mmap_post(pre, pre_alloc, post, post_alloc, start, len, bits, r),
        r is Ok,
    ensures
        pages_for(len as int) <= pre_alloc.free_count(),
        post_alloc.free_count() == pre_alloc.free_count() - pages_for(len as int),
        r == Ok::<usize, MemError>((pages_for(len as int) * PAGE_SIZE) as usize),
{
    let n = pages_for(len as int);
    if n > 0 {
        let a = post.areas[pre.slot(start as int / PAGE_SIZE as int)];
        assert forall|i: int| 0 <= i < a.frames.len() implies !pre_alloc.frames.contains_key(
            #[trigger] a.frames[i],
        ) by {
            assert(pre_alloc.is_free(a.frames[i]));
        }
        lemma_fresh_frames_count(pre_alloc.frames, a.frames);
    }
}

/// Pages that are all mapped, to frames that are all different, have as
/// many frames as there are pages.
pub proof fn lemma_frames_of_pages_count(table: Map<usize, PageTableEntry>, lo: int, hi: int)
    requires
        0 <= lo <= hi <= usize::MAX + 1,
        forall|v: usize| lo <= v < hi ==> #[trigger] table.contains_key(v),
        forall|v: usize, w: usize|
            table.contains_key(v) && table.contains_key(w) && v != w ==> (#[trigger] table[v]).frame
                != (#[trigger] table[w]).frame,
    ensures
        frames_of_pages(table, lo, hi).finite(),
        frames_of_pages(table, lo, hi).len() == hi - lo,
    decreases hi - lo,
{
    if lo == hi {
        assert(frames_of_pages(table, lo, hi) =~= Set::<usize>::empty());
    } else {
        let last = (hi - 1) as usize;
        let f = table[last].frame;
        let rest = frames_of_pages(table, lo, hi - 1);
        lemma_frames_of_pages_count(table, lo, hi - 1);
        assert(table.contains_key(last));
        assert(!rest.contains(f)) by {
            if rest.contains(f) {
                let v = choose|v: usize|
                    lo <= v < hi - 1 && #[trigger] table.contains_key(v) && table[v].frame == f;
                assert(table[v].frame != table[last].frame);
            }
        }
        assert(frames_of_pages(table, lo, hi) =~= rest.insert(f)) by {
            assert forall|g: usize| frames_of_pages(table, lo, hi).contains(g) implies rest.insert(
                f,
            ).contains(g) by {
                let v = choose|v: usize|
                    lo <= v < hi && #[trigger] table.contains_key(v) && table[v].frame == g;
                if v != last {
                    assert(lo <= v < hi - 1 && table.contains_key(v) && table[v].frame == g);
                }
            }
            assert forall|g: usize| rest.insert(f).contains(g) implies frames_of_pages(
                table,
                lo,
                hi,
            ).contains(g) by {
                if g == f {
                    assert(lo <= last < hi && table.contains_key(last) && table[last].frame == g);
                } else {
                    let v = choose|v: usize|
                        lo <= v < hi - 1 && #[trigger] table.contains_key(v) && table[v].frame == g;
                    assert(lo <= v < hi && table.contains_key(v) && table[v].frame == g);
                }
            }
        }
    }
}

/// A successful `munmap` gives back exactly one frame for each page that
/// it unmaps.
pub proof fn law_munmap_returns_a_frame_per_page(
    pre: AddressSpaceView,
    pre_alloc: FrameAllocatorView,
    post: AddressSpaceView,
    post_alloc: FrameAllocatorView,
    start: usize,
    len: usize,
    r: Result<(), MemError>,
)
    requires
        pre.wf(),
        pre_alloc.wf(),
        pre.backed_by(pre_alloc),
        munmap_post(pre, pre_alloc, post, post_alloc, start, len, r),
        r is Ok,
    ensures
        post_alloc.free_count() == pre_alloc.free_count() + pages_for(len as int),
{
    let lo = start as int / PAGE_SIZE as int;
    let hi = lo + pages_for(len as int);
    let gone = frames_of_pages(pre.table, lo, hi);
    assert forall|v: usize| lo <= v < hi implies #[trigger] pre.table.contains_key(v) by {
        assert(pre.in_area(v as int));
        let i = choose|i: int|
            0 <= i < pre.areas.len() && (#[trigger] pre.areas[i]).contains(v as int);
        assert(pre.areas[i].mapped_in(pre.table));
    }
    assert(hi <= usize::MAX + 1) by {
        let v = hi - 1;
        assert(pre.in_area(v));
        let i = choose|i: int| 0 <= i < pre.areas.len() && (#[trigger] pre.areas[i]).contains(v);
        assert(pre.areas[i].wf());
    }
    lemma_frames_of_pages_count(pre.table, lo, hi);
    assert forall|f: usize| #[trigger] gone.contains(f) implies pre_alloc.frames.contains_key(
        f,
    ) by {
        let v = choose|v: usize|
            lo <= v < hi && #[trigger] pre.table.contains_key(v) && pre.table[v].frame == f;
        assert(pre_alloc.is_allocated(pre.table[v].frame));
    }
    pre_alloc.frames.lemma_remove_keys_len(gone);
}

/// Of two requests for pages that do not meet, the second is granted
/// after the first whenever it would have been granted in its place and the
/// free frames suffice for both.
pub proof fn law_disjoint_mmaps_both_succeed(
    pre: AddressSpaceView,
    pre_alloc: FrameAllocatorView,
    mid: AddressSpaceView,
    mid_alloc: FrameAllocatorView,
    start: usize,
    len: usize,
    bits: usize,
    first: Result<usize, MemError>,
    start2: usize,
    len2: usize,
    bits2: usize,
)
    requires
        pre.wf(),
        pre_alloc.wf(),
        pre.backed_by(pre_alloc),
        mmap_post(pre, pre_alloc, mid, mid_alloc, start, len, bits, first),
        first is Ok,
        pre.mmap_outcome(pre_alloc.free_count(), start2, len2, bits2) is Ok,
        pages_for(len as int) + pages_for(len2 as int) <= pre_alloc.free_count(),
        start as int / PAGE_SIZE as int + pages_for(len as int) <= start2 as int
            / PAGE_SIZE as int || start2 as int / PAGE_SIZE as int + pages_for(len2 as int)
            <= start as int / PAGE_SIZE as int,
    ensures
        mid.mmap_outcome(mid_alloc.free_count(), start2, len2, bits2) is Ok,
{
    let lo = start as int / PAGE_SIZE as int;
    let n = pages_for(len as int);
    let lo2 = start2 as int / PAGE_SIZE as int;
    let hi2 = lo2 + pages_for(len2 as int);
    law_mmap_takes_a_frame_per_page(pre, pre_alloc, mid, mid_alloc, start, len, bits, first);
    if n > 0 {
        let k = pre.slot(lo);
        lemma_areas_below_parts(pre, lo);
        if mid.areas_intersect(lo2, hi2) {
            let i = choose|i: int|
                0 <= i < mid.areas.len() && (#[trigger] mid.areas[i]).intersects(lo2, hi2);
            if i < k {
                assert(pre.areas[i].intersects(lo2, hi2));
            } else if i > k {
                assert(pre.areas[i - 1].intersects(lo2, hi2));
            }
            assert(pre.areas_intersect(lo2, hi2));
        }
    }
}

/// `munmap` of pages that cut an area, so that part of it lies among them
/// and part does not, is refused and changes nothing.
pub proof fn law_munmap_of_part_of_an_area_fails(
    pre: AddressSpaceView,
    pre_alloc: FrameAllocatorView,
    post: AddressSpaceView,
    post_alloc: FrameAllocatorView,
    start: usize,
    len: usize,
    r: Result<(), MemError>,
    index: int,
)
    requires
        munmap_post(pre, pre_alloc, post, post_alloc, start, len, r),
        0 <= index < pre.areas.len(),
        pre.areas[index].intersects(
            start as int / PAGE_SIZE as int,
            start as int / PAGE_SIZE as int + pages_for(len as int),
        ),
        !pre.areas[index].within(
            start as int / PAGE_SIZE as int,
            start as int / PAGE_SIZE as int + pages_for(len as int),
        ),
    ensures
        r is Err,
        start % PAGE_SIZE == 0 ==> r == Err::<(), MemError>(MemError::NotMapped),
        post == pre,
        post_alloc == pre_alloc,
{
}

/// `munmap` of pages of which one belongs to no mapped area is refused
/// and changes nothing.
pub proof fn law_munmap_of_an_unmapped_page_fails(
    pre: AddressSpaceView,
    pre_alloc: FrameAllocatorView,
    post: AddressSpaceView,
    post_alloc: FrameAllocatorView,
    start: usize,
    len: usize,
    r: Result<(), MemError>,
    page: int,
)
    requires
        munmap_post(pre, pre_alloc, post, post_alloc, start, len, r),
        start as int / PAGE_SIZE as int <= page < start as int / PAGE_SIZE as int + pages_for(
            len as int,
        ),
        !pre.in_area(page),
    ensures
        r is Err,
        start % PAGE_SIZE == 0 ==> r == Err::<(), MemError>(MemError::NotMapped),
        post == pre,
        post_alloc == pre_alloc,
{
}

/// After a mapping was made, `munmap` of other pages than exactly its own
/// is refused if some but not all of the mapping's pages are among them.
pub proof fn law_munmap_must_match_the_mapping(
    pre: AddressSpaceView,
    pre_alloc: FrameAllocatorView,
    mid: AddressSpaceView,
    mid_alloc: FrameAllocatorView,
    post: AddressSpaceView,
    post_alloc: FrameAllocatorView,
    start: usize,
    len: usize,
    bits: usize,
    mapped: Result<usize, MemError>,
    start2: usize,
    len2: usize,
    unmapped: Result<(), MemError>,
    inside: int,
    outside: int,
)
    requires
        pre.wf(),
        pre.backed_by(pre_alloc),
        mmap_post(pre, pre_alloc, mid, mid_alloc, start, len, bits, mapped),
        mapped is Ok,
        munmap_post(mid, mid_alloc, post, post_alloc, start2, len2, unmapped),
        start as int / PAGE_SIZE as int <= inside < start as int / PAGE_SIZE as int + pages_for(
            len as int,
        ),
        start as int / PAGE_SIZE as int <= outside < start as int / PAGE_SIZE as int + pages_for(
            len as int,
        ),
        start2 as int / PAGE_SIZE as int <= inside < start2 as int / PAGE_SIZE as int + pages_for(
            len2 as int,
        ),
        !(start2 as int / PAGE_SIZE as int <= outside < start2 as int / PAGE_SIZE as int
            + pages_for(len2 as int)),
    ensures
        unmapped is Err,
        post == mid,
        post_alloc == mid_alloc,
{
    let k = pre.slot(start as int / PAGE_SIZE as int);
    lemma_mmap_result(pre, pre_alloc, mid, mid_alloc, start, len, bits, mapped);
    let lo2 = start2 as int / PAGE_SIZE as int;
    let hi2 = lo2 + pages_for(len2 as int);
    assert(mid.areas[k].intersects(lo2, hi2));
    assert(!mid.areas[k].within(lo2, hi2));
}

/// What was written to user addresses is what a read of the same
/// addresses returns, however many pages the addresses span.
pub proof fn law_read_returns_what_was_written(
    space: AddressSpaceView,
    pre: FrameAllocatorView,
    post: FrameAllocatorView,
    addr: usize,
    data: Seq<u8>,
    written: Result<(), MemError>,
    read: Result<Vec<u8>, MemError>,
)
    requires
        data.len() <= usize::MAX,
        write_user_post(space, pre, post, addr, data, written),
        written is Ok,
        read_user_post(space, post, addr, data.len() as usize, read),
        range_accessible(space.table, addr, data.len(), false),
    ensures
        read is Ok,
        read->Ok_0@ == data,
{
}

/// A write of which one address is not writable for user code is
/// refused with `NotMapped` and writes nothing, also not to the addresses
/// that are writable.
pub proof fn law_write_to_unmapped_page_writes_nothing(
    space: AddressSpaceView,
    pre: FrameAllocatorView,
    post: FrameAllocatorView,
    addr: usize,
    data: Seq<u8>,
    written: Result<(), MemError>,
    index: int,
)
    requires
        write_user_post(space, pre, post, addr, data, written),
        0 <= index < data.len(),
        !byte_accessible(space.table, addr + index, true),
    ensures
        written == Err::<(), MemError>(MemError::NotMapped),
        post == pre,
        user_bytes(space.table, post.frames, addr, data.len()) == user_bytes(
            space.table,
            pre.frames,
            addr,
            data.len(),
        ),
{
}

/// Raising the break and lowering it again by the same number of bytes
/// leaves the address space and the allocator exactly as they were: the
/// break is back where it was, and the frames that the heap gained are
/// free again.
pub proof fn law_sbrk_round_trip(
    pre: AddressSpaceView,
    pre_alloc: FrameAllocatorView,
    mid: AddressSpaceView,
    mid_alloc: FrameAllocatorView,
    post: AddressSpaceView,
    post_alloc: FrameAllocatorView,
    delta: int,
    raised: Option<usize>,
    lowered: Option<usize>,
)
    requires
        pre.wf(),
        pre.backed_by(pre_alloc),
        delta >= 0,
        raised == pre.sbrk_outcome(pre_alloc.free_count(), delta),
        sbrk_post(pre, pre_alloc, mid, mid_alloc, delta, raised),
        raised is Some,
        lowered == mid.sbrk_outcome(mid_alloc.free_count(), -delta),
        sbrk_post(mid, mid_alloc, post, post_alloc, -delta, lowered),
    ensures
        raised == Some(pre.brk),
        lowered == Some((pre.brk + delta) as usize),
        post == pre,
        post_alloc == pre_alloc,
{
    let n = pre.heap.frames.len() as int;
    let m = mid.heap.frames.len() as int;
    let old_end = pre.heap.end();
    let new_end = mid.heap.start + m;
    let fresh = mid.heap.frames.subrange(n, m);
    assert(new_end == pages_for(pre.brk + delta));
    assert(new_end >= old_end);
    assert(post.heap.frames =~= pre.heap.frames);
    assert(post.heap == pre.heap);
    assert forall|v: usize| old_end <= v < new_end implies !pre.table.contains_key(v) by {
        if pre.table.contains_key(v) {
            assert(pre.covered(v as int));
            if pre.in_area(v as int) {
                let i = choose|i: int|
                    0 <= i < pre.areas.len() && (#[trigger] pre.areas[i]).contains(v as int);
                assert(pre.areas[i].intersects(old_end, new_end));
                assert(pre.areas_intersect(old_end, new_end));
            }
        }
    }
    assert(post.table =~= pre.table);
    assert(post_alloc.frames =~= pre_alloc.frames) by {
        assert forall|f: usize| pre_alloc.frames.contains_key(f) implies !fresh.contains(f) by {
            if fresh.contains(f) {
                let i = choose|i: int| 0 <= i < fresh.len() && fresh[i] == f;
                assert(pre_alloc.is_free(fresh[i]));
            }
        }
        assert(mid.heap.frames.subrange(n, m) == fresh);
    }
}

} // verus!
