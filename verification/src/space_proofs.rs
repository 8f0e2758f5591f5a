//! Why `mmap`, `munmap` and the program-break operation keep an address
//! space well formed: lemmas over the mathematical model.

use vstd::prelude::*;
use crate::config::pages_for;
use crate::frame_allocator::FrameAllocatorView;
use crate::memory_area::{page_range, with_fresh_frames, AreaView};
use crate::page_table::PageTableEntry;
use crate::space_model::{areas_below, frames_of_pages, AddressSpaceView};

verus! {

/// In an ordered sequence of areas, the index `k` below which all areas
/// start below `vpn` and from which none does is `areas_below`.
pub proof fn lemma_areas_below(areas: Seq<AreaView>, vpn: int, k: int)
    requires
        0 <= k <= areas.len(),
        forall|i: int| 0 <= i < k ==> (#[trigger] areas[i]).start < vpn,
        forall|i: int| k <= i < areas.len() ==> (#[trigger] areas[i]).start >= vpn,
    ensures
        areas_below(areas, vpn) == k,
    decreases areas.len(),
{
    if areas.len() > 0 {
        let rest = areas.drop_last();
        if k == areas.len() {
            lemma_areas_below(rest, vpn, k - 1);
        } else {
            lemma_areas_below(rest, vpn, k);
        }
    }
}

/// Entering a new area keeps an address space well formed: the area `a`
/// shares no page with what exists, goes to position `k` in the order, and
/// is backed by frames that were free.
pub proof fn lemma_insert_area(
    pre: AddressSpaceView,
    pre_alloc: FrameAllocatorView,
    post: AddressSpaceView,
    post_alloc: FrameAllocatorView,
    k: int,
    a: AreaView,
)
    requires
        pre.wf(),
        pre.backed_by(pre_alloc),
        0 <= k <= pre.areas.len(),
        a.wf(),
        a.frames.len() > 0,
        a.frames.no_duplicates(),
        forall|i: int| 0 <= i < a.frames.len() ==> pre_alloc.is_free(#[trigger] a.frames[i]),
        forall|i: int| 0 <= i < k ==> (#[trigger] pre.areas[i]).end() <= a.start,
        forall|i: int| k <= i < pre.areas.len() ==> a.end() <= (#[trigger] pre.areas[i]).start,
        !pre.heap.intersects(a.start as int, a.end()),
        post.areas == pre.areas.insert(k, a),
        post.table == a.install(pre.table, 0),
        post.heap == pre.heap,
        post.heap_base == pre.heap_base,
        post.brk == pre.brk,
        post_alloc.frames == with_fresh_frames(pre_alloc.frames, a.frames),
    ensures
        post.wf(),
        post.backed_by(post_alloc),
        pre.slot(a.start as int) == k,
        !pre.intersects(a.start as int, a.end()),
{
    assert(post.areas.len() == pre.areas.len() + 1);
    assert forall|i: int| 0 <= i < post.areas.len() implies #[trigger] post.areas[i] == (if i
        < k {
        pre.areas[i]
    } else if i == k {
        a
    } else {
        pre.areas[i - 1]
    }) by {}
    assert(post.areas_wf()) by {
        assert forall|i: int, j: int| 0 <= i < j < post.areas.len() implies (
        #[trigger] post.areas[i]).end() <= (#[trigger] post.areas[j]).start by {
            if i < k && j > k {
                assert(pre.areas[i].end() <= pre.areas[j - 1].start);
            }
        }
    }
    assert(post.heap_wf());
    // No page of the new area was mapped before.
    assert forall|v: usize| a.contains(v as int) implies !pre.table.contains_key(v) by {
        if pre.table.contains_key(v) {
            assert(pre.covered(v as int));
            if pre.in_area(v as int) {
                let i = choose|i: int|
                    0 <= i < pre.areas.len() && (#[trigger] pre.areas[i]).contains(v as int);
                assert(pre.areas[i].contains(v as int));
            }
        }
    }
    assert forall|v: usize| #[trigger] post.table.contains_key(v) implies post.covered(
        v as int,
    ) by {
        if a.contains(v as int) {
            assert(post.areas[k].contains(v as int));
        } else {
            assert(pre.table.contains_key(v));
            assert(pre.covered(v as int));
            if pre.in_area(v as int) {
                let i = choose|i: int|
                    0 <= i < pre.areas.len() && (#[trigger] pre.areas[i]).contains(v as int);
                if i < k {
                    assert(post.areas[i].contains(v as int));
                } else {
                    assert(post.areas[i + 1].contains(v as int));
                }
            }
        }
    }
    assert(post.heap.mapped_in(post.table)) by {
        assert forall|v: usize| post.heap.contains(v as int) implies #[trigger] post.table.contains_key(v)
            && post.table[v] == post.heap.entry(v as int) by {
            assert(pre.table.contains_key(v));
        }
    }
    assert forall|i: int| 0 <= i < post.areas.len() implies (#[trigger] post.areas[i]).mapped_in(
        post.table,
    ) by {
        let b = post.areas[i];
        assert forall|v: usize| b.contains(v as int) implies #[trigger] post.table.contains_key(v)
            && post.table[v] == b.entry(v as int) by {
            if i < k {
                assert(pre.areas[i].mapped_in(pre.table));
                assert(pre.table.contains_key(v));
            } else if i > k {
                assert(pre.areas[i - 1].mapped_in(pre.table));
                assert(pre.table.contains_key(v));
            }
        }
    }
    assert forall|v: usize, w: usize|
        post.table.contains_key(v) && post.table.contains_key(w) && v != w implies (
    #[trigger] post.table[v]).frame != (#[trigger] post.table[w]).frame by {
        let fv = post.table[v].frame;
        let fw = post.table[w].frame;
        if a.contains(v as int) && a.contains(w as int) {
            assert(fv == a.frames[v - a.start]);
            assert(fw == a.frames[w - a.start]);
        } else if a.contains(v as int) {
            assert(pre.table.contains_key(w));
            assert(pre_alloc.is_free(a.frames[v - a.start]));
        } else if a.contains(w as int) {
            assert(pre.table.contains_key(v));
            assert(pre_alloc.is_free(a.frames[w - a.start]));
        } else {
            assert(pre.table.contains_key(v) && pre.table.contains_key(w));
        }
    }
    assert(post.backed_by(post_alloc)) by {
        assert forall|v: usize| #[trigger] post.table.contains_key(v) implies post_alloc.is_allocated(
            post.table[v].frame,
        ) by {
            if a.contains(v as int) {
                assert(a.frames.contains(a.frames[v - a.start]));
            } else {
                assert(pre.table.contains_key(v));
            }
        }
    }
    lemma_areas_below(pre.areas, a.start as int, k);
    assert(!pre.areas_intersect(a.start as int, a.end())) by {
        if pre.areas_intersect(a.start as int, a.end()) {
            let i = choose|i: int|
                0 <= i < pre.areas.len() && (#[trigger] pre.areas[i]).intersects(
                    a.start as int,
                    a.end(),
                );
            assert(pre.areas[i].intersects(a.start as int, a.end()));
        }
    }
}

/// The frames of an area are the frames that a table in which it is
/// entered names for its pages.
pub proof fn lemma_area_frames(a: AreaView, table: Map<usize, PageTableEntry>)
    requires
        a.wf(),
        a.mapped_in(table),
    ensures
        a.frames.to_set() == frames_of_pages(table, a.start as int, a.end()),
{
    let s = frames_of_pages(table, a.start as int, a.end());
    assert forall|f: usize| a.frames.to_set().contains(f) <==> s.contains(f) by {
        if a.frames.to_set().contains(f) {
            let i = choose|i: int| 0 <= i < a.frames.len() && a.frames[i] == f;
            let v = (a.start + i) as usize;
            assert(a.contains(v as int));
            assert(table.contains_key(v));
            assert(table[v] == a.entry(v as int));
            assert(v - a.start == i);
            assert(table[v].frame == f);
        }
        if s.contains(f) {
            let v = choose|v: usize|
                a.start <= v < a.end() && #[trigger] table.contains_key(v) && table[v].frame == f;
            assert(a.contains(v as int));
            assert(a.frames[v - a.start] == f);
        }
    }
    assert(a.frames.to_set() =~= s);
}

/// Whether the areas at the positions `i..j` lie end to start and fill the
/// pages `lo..hi`.
pub open spec fn tiles(areas: Seq<AreaView>, i: int, j: int, lo: int, hi: int) -> bool {
    &&& 0 <= i < j <= areas.len()
    &&& areas[i].start == lo
    &&& areas[j - 1].end() == hi
    &&& forall|m: int| i <= m < j - 1 ==> (#[trigger] areas[m]).end() == areas[m + 1].start
}

/// A page among tiles belongs to one of them.
pub proof fn lemma_tiles_cover(areas: Seq<AreaView>, i: int, j: int, lo: int, hi: int, v: int)
    requires
        tiles(areas, i, j, lo, hi),
        lo <= v < hi,
    ensures
        exists|m: int| i <= m < j && (#[trigger] areas[m]).contains(v),
    decreases j - i,
{
    if v >= areas[j - 1].start {
        assert(areas[j - 1].contains(v));
    } else {
        assert(j - 1 > i);
        assert(areas[j - 2].end() == areas[j - 2 + 1].start);
        lemma_tiles_cover(areas, i, j - 1, lo, areas[j - 1].start as int, v);
    }
}

/// Pages that the areas at `i..j` fill are exactly covered, and `i` and
/// `j` are the positions at which the first and the last page belong.
pub proof fn lemma_tiles_exactly_cover(pre: AddressSpaceView, i: int, j: int, lo: int, hi: int)
    requires
        pre.areas_wf(),
        tiles(pre.areas, i, j, lo, hi),
    ensures
        pre.exactly_covered(lo, hi),
        pre.slot(lo) == i,
        pre.slot(hi) == j,
{
    let areas = pre.areas;
    assert(areas[i].frames.len() > 0);
    assert(areas[j - 1].frames.len() > 0);
    assert(i < j - 1 ==> areas[i].end() <= areas[j - 1].start);
    assert(lo < hi);
    assert forall|v: int| lo <= v < hi implies #[trigger] pre.in_area(v) by {
        lemma_tiles_cover(areas, i, j, lo, hi, v);
        let m = choose|m: int| i <= m < j && (#[trigger] areas[m]).contains(v);
        assert(areas[m].contains(v));
    }
    assert forall|m: int|
        0 <= m < areas.len() && (#[trigger] areas[m]).intersects(lo, hi) implies areas[m].within(
        lo,
        hi,
    ) by {
        if m < i {
            assert(areas[m].end() <= areas[i].start);
        } else if m >= j {
            assert(areas[j - 1].end() <= areas[m].start);
        } else {
            if m > i {
                assert(areas[i].end() <= areas[m].start);
            }
            if m < j - 1 {
                assert(areas[m].end() <= areas[j - 1].start);
            }
        }
    }
    assert forall|m: int| 0 <= m < i implies (#[trigger] areas[m]).start < lo by {
        assert(areas[m].end() <= areas[i].start);
        assert(areas[m].frames.len() > 0);
    }
    assert forall|m: int| i <= m < areas.len() implies (#[trigger] areas[m]).start >= lo by {
        if m > i {
            assert(areas[i].end() <= areas[m].start);
        }
    }
    lemma_areas_below(areas, lo, i);
    assert forall|m: int| 0 <= m < j implies (#[trigger] areas[m]).start < hi by {
        assert(areas[m].frames.len() > 0);
        if m < j - 1 {
            assert(areas[m].end() <= areas[j - 1].start);
        }
    }
    assert forall|m: int| j <= m < areas.len() implies (#[trigger] areas[m]).start >= hi by {
        assert(areas[j - 1].end() <= areas[m].start);
    }
    lemma_areas_below(areas, hi, j);
}

/// A walk over the areas that set out at `lo`, has passed the tiles at
/// `i..j` up to page `cur`, and cannot go on before `hi`, shows that the
/// pages `lo..hi` are not exactly covered.
pub proof fn lemma_walk_stuck(pre: AddressSpaceView, i: int, j: int, lo: int, hi: int, cur: int)
    requires
        pre.areas_wf(),
        0 <= i <= j <= pre.areas.len(),
        forall|m: int| 0 <= m < i ==> (#[trigger] pre.areas[m]).end() <= lo,
        i < pre.areas.len() ==> pre.areas[i].end() > lo,
        j == i ==> cur == lo,
        j > i ==> tiles(pre.areas, i, j, lo, cur),
        lo <= cur < hi,
        j == pre.areas.len() || pre.areas[j].start != cur || pre.areas[j].end() > hi,
    ensures
        !pre.exactly_covered(lo, hi),
{
    let areas = pre.areas;
    if pre.exactly_covered(lo, hi) {
        assert(pre.in_area(cur));
        let m = choose|m: int| 0 <= m < areas.len() && (#[trigger] areas[m]).contains(cur);
        assert(areas[m].contains(cur));
        if m < i {
            assert(areas[m].end() <= lo);
        } else if m < j {
            if m < j - 1 {
                assert(areas[m].end() <= areas[j - 1].start);
                assert(areas[j - 1].frames.len() > 0);
            }
        } else {
            if m > j {
                assert(areas[j].end() <= areas[m].start);
                assert(areas[j].frames.len() > 0);
            }
            if j > i {
                assert(areas[j - 1].end() <= areas[j].start);
            }
            assert(areas[j].frames.len() > 0);
            assert(areas[j].intersects(lo, hi));
            assert(areas[j].within(lo, hi));
        }
    }
}

/// Taking whole areas away keeps an address space well formed.
pub proof fn lemma_remove_areas(
    pre: AddressSpaceView,
    pre_alloc: FrameAllocatorView,
    post: AddressSpaceView,
    post_alloc: FrameAllocatorView,
    i: int,
    j: int,
    lo: int,
    hi: int,
)
    requires
        pre.wf(),
        pre.backed_by(pre_alloc),
        tiles(pre.areas, i, j, lo, hi),
        post.areas == pre.areas.subrange(0, i) + pre.areas.subrange(j, pre.areas.len() as int),
        post.table == pre.table.remove_keys(page_range(lo, hi)),
        post.heap == pre.heap,
        post.heap_base == pre.heap_base,
        post.brk == pre.brk,
        post_alloc.frames == pre_alloc.frames.remove_keys(frames_of_pages(pre.table, lo, hi)),
    ensures
        post.wf(),
        post.backed_by(post_alloc),
{
    lemma_tiles_exactly_cover(pre, i, j, lo, hi);
    let d = j - i;
    assert forall|m: int| 0 <= m < post.areas.len() implies #[trigger] post.areas[m] == (if m
        < i {
        pre.areas[m]
    } else {
        pre.areas[m + d]
    }) by {}
    assert(post.areas_wf()) by {
        assert forall|a: int, b: int| 0 <= a < b < post.areas.len() implies (
        #[trigger] post.areas[a]).end() <= (#[trigger] post.areas[b]).start by {
            let a2 = if a < i {
                a
            } else {
                a + d
            };
            let b2 = if b < i {
                b
            } else {
                b + d
            };
            assert(pre.areas[a2].end() <= pre.areas[b2].start);
        }
    }
    assert(post.heap_wf()) by {
        assert forall|m: int| 0 <= m < post.areas.len() implies !(
        #[trigger] post.areas[m]).intersects(post.heap.start as int, post.heap.end()) by {
            let m2 = if m < i {
                m
            } else {
                m + d
            };
            assert(!pre.areas[m2].intersects(pre.heap.start as int, pre.heap.end()));
        }
    }
    // A page of the heap or of an area that stays is outside `lo..hi`.
    assert forall|v: usize| pre.heap.contains(v as int) implies !(lo <= v < hi) by {
        if lo <= v < hi {
            assert(pre.in_area(v as int));
            let m = choose|m: int|
                0 <= m < pre.areas.len() && (#[trigger] pre.areas[m]).contains(v as int);
            assert(pre.areas[m].intersects(pre.heap.start as int, pre.heap.end()));
        }
    }
    assert forall|m: int, v: usize|
        0 <= m < post.areas.len() && (#[trigger] post.areas[m]).contains(
            v as int,
        ) implies #[trigger] pre.table.contains_key(v) && !(lo <= v < hi) by {
        let m2 = if m < i {
            m
        } else {
            m + d
        };
        assert(pre.areas[m2].mapped_in(pre.table));
        if m < i {
            assert(pre.areas[m2].end() <= pre.areas[i].start);
        } else {
            assert(pre.areas[j - 1].end() <= pre.areas[m2].start);
        }
    }
    assert forall|v: usize| #[trigger] post.table.contains_key(v) implies post.covered(
        v as int,
    ) by {
        assert(pre.table.contains_key(v));
        assert(pre.covered(v as int));
        if pre.in_area(v as int) {
            let m = choose|m: int|
                0 <= m < pre.areas.len() && (#[trigger] pre.areas[m]).contains(v as int);
            if m < i {
                assert(post.areas[m].contains(v as int));
            } else if m >= j {
                assert(post.areas[m - d].contains(v as int));
            } else {
                assert(pre.areas[m].intersects(lo, hi));
                assert(pre.areas[m].within(lo, hi));
            }
        }
    }
    assert(post.heap.mapped_in(post.table)) by {
        assert forall|v: usize| post.heap.contains(v as int) implies #[trigger] post.table.contains_key(v)
            && post.table[v] == post.heap.entry(v as int) by {
            assert(pre.table.contains_key(v));
        }
    }
    assert forall|m: int| 0 <= m < post.areas.len() implies (#[trigger] post.areas[m]).mapped_in(
        post.table,
    ) by {
        let b = post.areas[m];
        let m2 = if m < i {
            m
        } else {
            m + d
        };
        assert(pre.areas[m2].mapped_in(pre.table));
        assert forall|v: usize| b.contains(v as int) implies #[trigger] post.table.contains_key(v)
            && post.table[v] == b.entry(v as int) by {
            assert(post.areas[m].contains(v as int));
            assert(pre.table.contains_key(v));
        }
    }
    assert forall|v: usize, w: usize|
        post.table.contains_key(v) && post.table.contains_key(w) && v != w implies (
    #[trigger] post.table[v]).frame != (#[trigger] post.table[w]).frame by {
        assert(pre.table.contains_key(v) && pre.table.contains_key(w));
        assert(pre.table[v].frame != pre.table[w].frame);
    }
    assert(post.backed_by(post_alloc)) by {
        assert forall|v: usize| #[trigger] post.table.contains_key(v) implies post_alloc.is_allocated(
            post.table[v].frame,
        ) by {
            assert(pre.table.contains_key(v));
            let f = pre.table[v].frame;
            if frames_of_pages(pre.table, lo, hi).contains(f) {
                let w = choose|w: usize|
                    lo <= w < hi && #[trigger] pre.table.contains_key(w) && pre.table[w].frame == f;
                assert(pre.table[v].frame != pre.table[w].frame);
            }
        }
    }
}

/// Raising the break, with fresh frames behind the pages that the heap
/// gains, keeps an address space well formed.
pub proof fn lemma_heap_grow(
    pre: AddressSpaceView,
    pre_alloc: FrameAllocatorView,
    post: AddressSpaceView,
    post_alloc: FrameAllocatorView,
)
    requires
        pre.wf(),
        pre.backed_by(pre_alloc),
        post.areas == pre.areas,
        post.heap_base == pre.heap_base,
        post.brk >= pre.brk,
        post.heap.wf(),
        post.heap.start == pre.heap.start,
        post.heap.perms == pre.heap.perms,
        post.heap.end() == pages_for(post.brk as int),
        post.heap.frames.len() >= pre.heap.frames.len(),
        post.heap.frames.subrange(0, pre.heap.frames.len() as int) == pre.heap.frames,
        post.heap.frames.subrange(
            pre.heap.frames.len() as int,
            post.heap.frames.len() as int,
        ).no_duplicates(),
        forall|i: int|
            pre.heap.frames.len() <= i < post.heap.frames.len() ==> pre_alloc.is_free(
                #[trigger] post.heap.frames[i],
            ),
        !pre.areas_intersect(pre.heap.end(), post.heap.end()),
        post.table == post.heap.install(pre.table, pre.heap.frames.len() as int),
        post_alloc.frames == with_fresh_frames(
            pre_alloc.frames,
            post.heap.frames.subrange(pre.heap.frames.len() as int, post.heap.frames.len() as int),
        ),
    ensures
        post.wf(),
        post.backed_by(post_alloc),
{
    let n = pre.heap.frames.len() as int;
    let m = post.heap.frames.len() as int;
    let fresh = post.heap.frames.subrange(n, m);
    let old_end = pre.heap.end();
    let new_end = post.heap.end();
    assert forall|i: int| 0 <= i < n implies #[trigger] post.heap.frames[i]
        == pre.heap.frames[i] by {
        assert(post.heap.frames.subrange(0, n)[i] == post.heap.frames[i]);
    }
    assert forall|i: int| n <= i < m implies #[trigger] post.heap.frames[i] == fresh[i - n] by {}
    assert(post.areas_wf());
    assert(post.heap_wf()) by {
        assert forall|i: int| 0 <= i < post.areas.len() implies !(
        #[trigger] post.areas[i]).intersects(post.heap.start as int, post.heap.end()) by {
            assert(!pre.areas[i].intersects(pre.heap.start as int, old_end));
            assert(!pre.areas[i].intersects(old_end, new_end));
        }
    }
    // No page that the heap gains was mapped before.
    assert forall|v: usize| old_end <= v < new_end implies !pre.table.contains_key(v) by {
        if pre.table.contains_key(v) {
            assert(pre.covered(v as int));
            if pre.in_area(v as int) {
                let i = choose|i: int|
                    0 <= i < pre.areas.len() && (#[trigger] pre.areas[i]).contains(v as int);
                assert(pre.areas[i].intersects(old_end, new_end));
            }
        }
    }
    assert forall|v: usize| #[trigger] post.table.contains_key(v) implies post.covered(
        v as int,
    ) by {
        if !(old_end <= v < new_end) {
            assert(pre.table.contains_key(v));
            assert(pre.covered(v as int));
            if pre.in_area(v as int) {
                let i = choose|i: int|
                    0 <= i < pre.areas.len() && (#[trigger] pre.areas[i]).contains(v as int);
                assert(post.areas[i].contains(v as int));
            }
        }
    }
    assert(post.heap.mapped_in(post.table)) by {
        assert forall|v: usize| post.heap.contains(v as int) implies #[trigger] post.table.contains_key(v)
            && post.table[v] == post.heap.entry(v as int) by {
            if v < old_end {
                assert(pre.heap.contains(v as int));
                assert(pre.table.contains_key(v));
                assert(pre.table[v] == pre.heap.entry(v as int));
            }
        }
    }
    assert forall|i: int| 0 <= i < post.areas.len() implies (#[trigger] post.areas[i]).mapped_in(
        post.table,
    ) by {
        let b = post.areas[i];
        assert(pre.areas[i].mapped_in(pre.table));
        assert forall|v: usize| b.contains(v as int) implies #[trigger] post.table.contains_key(v)
            && post.table[v] == b.entry(v as int) by {
            assert(pre.table.contains_key(v));
        }
    }
    assert forall|v: usize, w: usize|
        post.table.contains_key(v) && post.table.contains_key(w) && v != w implies (
    #[trigger] post.table[v]).frame != (#[trigger] post.table[w]).frame by {
        let gv = old_end <= v < new_end;
        let gw = old_end <= w < new_end;
        if gv && gw {
            assert(post.table[v].frame == fresh[v - old_end]);
            assert(post.table[w].frame == fresh[w - old_end]);
        } else if gv {
            assert(pre.table.contains_key(w));
            assert(pre_alloc.is_free(post.heap.frames[v - post.heap.start]));
        } else if gw {
            assert(pre.table.contains_key(v));
            assert(pre_alloc.is_free(post.heap.frames[w - post.heap.start]));
        } else {
            assert(pre.table.contains_key(v) && pre.table.contains_key(w));
        }
    }
    assert(post.backed_by(post_alloc)) by {
        assert forall|v: usize| #[trigger] post.table.contains_key(v) implies post_alloc.is_allocated(
            post.table[v].frame,
        ) by {
            if old_end <= v < new_end {
                assert(fresh[v - old_end] == post.table[v].frame);
                assert(fresh.contains(fresh[v - old_end]));
            } else {
                assert(pre.table.contains_key(v));
            }
        }
    }
}

/// Lowering the break, with the pages that the heap loses unmapped and
/// their frames released, keeps an address space well formed.
pub proof fn lemma_heap_shrink(
    pre: AddressSpaceView,
    pre_alloc: FrameAllocatorView,
    post: AddressSpaceView,
    post_alloc: FrameAllocatorView,
)
    requires
        pre.wf(),
        pre.backed_by(pre_alloc),
        post.areas == pre.areas,
        post.heap_base == pre.heap_base,
        post.heap_base <= post.brk,
        post.heap.start == pre.heap.start,
        post.heap.perms == pre.heap.perms,
        post.heap.end() == pages_for(post.brk as int),
        post.heap.frames.len() <= pre.heap.frames.len(),
        post.heap.frames == pre.heap.frames.subrange(0, post.heap.frames.len() as int),
        post.table == pre.table.remove_keys(page_range(post.heap.end(), pre.heap.end())),
        post_alloc.frames == pre_alloc.frames.remove_keys(
            pre.heap.frames.subrange(
                post.heap.frames.len() as int,
                pre.heap.frames.len() as int,
            ).to_set(),
        ),
    ensures
        post.wf(),
        post.backed_by(post_alloc),
{
    let n = pre.heap.frames.len() as int;
    let m = post.heap.frames.len() as int;
    let dropped = pre.heap.frames.subrange(m, n);
    let old_end = pre.heap.end();
    let new_end = post.heap.end();
    assert(post.areas_wf());
    assert(post.heap_wf()) by {
        assert forall|i: int| 0 <= i < post.areas.len() implies !(
        #[trigger] post.areas[i]).intersects(post.heap.start as int, post.heap.end()) by {
            assert(!pre.areas[i].intersects(pre.heap.start as int, old_end));
        }
    }
    assert forall|i: int, v: usize|
        0 <= i < pre.areas.len() && (#[trigger] pre.areas[i]).contains(
            v as int,
        ) implies #[trigger] pre.table.contains_key(v) && !(new_end <= v < old_end) by {
        assert(pre.areas[i].mapped_in(pre.table));
        assert(!pre.areas[i].intersects(pre.heap.start as int, old_end));
    }
    assert forall|v: usize| #[trigger] post.table.contains_key(v) implies post.covered(
        v as int,
    ) by {
        assert(pre.table.contains_key(v));
        assert(pre.covered(v as int));
        if pre.in_area(v as int) {
            let i = choose|i: int|
                0 <= i < pre.areas.len() && (#[trigger] pre.areas[i]).contains(v as int);
            assert(post.areas[i].contains(v as int));
        }
    }
    assert(post.heap.mapped_in(post.table)) by {
        assert forall|v: usize| post.heap.contains(v as int) implies #[trigger] post.table.contains_key(v)
            && post.table[v] == post.heap.entry(v as int) by {
            assert(pre.heap.contains(v as int));
            assert(pre.table.contains_key(v));
            assert(pre.table[v] == pre.heap.entry(v as int));
        }
    }
    assert forall|i: int| 0 <= i < post.areas.len() implies (#[trigger] post.areas[i]).mapped_in(
        post.table,
    ) by {
        let b = post.areas[i];
        assert(pre.areas[i].mapped_in(pre.table));
        assert forall|v: usize| b.contains(v as int) implies #[trigger] post.table.contains_key(v)
            && post.table[v] == b.entry(v as int) by {
            assert(pre.areas[i].contains(v as int));
            assert(pre.table.contains_key(v));
        }
    }
    assert forall|v: usize, w: usize|
        post.table.contains_key(v) && post.table.contains_key(w) && v != w implies (
    #[trigger] post.table[v]).frame != (#[trigger] post.table[w]).frame by {
        assert(pre.table.contains_key(v) && pre.table.contains_key(w));
        assert(pre.table[v].frame != pre.table[w].frame);
    }
    assert(post.backed_by(post_alloc)) by {
        assert forall|v: usize| #[trigger] post.table.contains_key(v) implies post_alloc.is_allocated(
            post.table[v].frame,
        ) by {
            assert(pre.table.contains_key(v));
            let f = pre.table[v].frame;
            if dropped.contains(f) {
                let i = choose|i: int| 0 <= i < dropped.len() && dropped[i] == f;
                let w = (pre.heap.start + m + i) as usize;
                assert(pre.heap.contains(w as int));
                assert(pre.table.contains_key(w));
                assert(pre.table[w] == pre.heap.entry(w as int));
                assert(pre.table[w].frame == f);
                assert(pre.table[v].frame != pre.table[w].frame);
            }
        }
    }
}

/// The frames of the areas from position `k` on.
pub open spec fn area_frames_from(areas: Seq<AreaView>, k: int) -> Set<usize> {
    Set::new(
        |f: usize| exists|m: int| k <= m < areas.len() && (#[trigger] areas[m]).frames.contains(f),
    )
}

/// The frames that a well-formed address space uses are those of its
/// areas and of its heap.
pub proof fn lemma_space_frames(space: AddressSpaceView)
    requires
        space.wf(),
    ensures
        space.frames() == area_frames_from(space.areas, 0).union(space.heap.frames.to_set()),
{
    let all = area_frames_from(space.areas, 0).union(space.heap.frames.to_set());
    assert forall|f: usize| space.frames().contains(f) <==> all.contains(f) by {
        if space.frames().contains(f) {
            let v = choose|v: usize| #[trigger]
                space.table.contains_key(v) && space.table[v].frame == f;
            assert(space.covered(v as int));
            if space.heap.contains(v as int) {
                assert(space.table[v] == space.heap.entry(v as int));
                assert(space.heap.frames[v - space.heap.start] == f);
            } else {
                let m = choose|m: int|
                    0 <= m < space.areas.len() && (#[trigger] space.areas[m]).contains(v as int);
                assert(space.areas[m].mapped_in(space.table));
                assert(space.table[v] == space.areas[m].entry(v as int));
                assert(space.areas[m].frames[v - space.areas[m].start] == f);
            }
        }
        if space.heap.frames.to_set().contains(f) {
            let i = choose|i: int| 0 <= i < space.heap.frames.len() && space.heap.frames[i] == f;
            let v = (space.heap.start + i) as usize;
            assert(space.heap.contains(v as int));
            assert(space.table.contains_key(v));
            assert(space.table[v] == space.heap.entry(v as int));
        }
        if area_frames_from(space.areas, 0).contains(f) {
            let m = choose|m: int|
                0 <= m < space.areas.len() && (#[trigger] space.areas[m]).frames.contains(f);
            let a = space.areas[m];
            let i = choose|i: int| 0 <= i < a.frames.len() && a.frames[i] == f;
            let v = (a.start + i) as usize;
            assert(a.wf());
            assert(a.mapped_in(space.table));
            assert(a.contains(v as int));
            assert(space.table.contains_key(v));
            assert(space.table[v] == a.entry(v as int));
        }
    }
    assert(space.frames() =~= all);
}

} // verus!
