//! Copies between kernel buffers and the virtual memory of a task. A range
//! of user addresses may cross page boundaries, and the frames behind
//! neighbouring pages need not be neighbours: every copy goes page by page
//! through the page table.

use vstd::prelude::*;
use crate::address_space::AddressSpace;
use crate::config::PAGE_SIZE;
use crate::error::MemError;
use crate::frame_allocator::{FrameAllocator, FrameAllocatorView};
use crate::page_table::PageTableEntry;
use crate::permissions::Permissions;
use crate::space_model::AddressSpaceView;

verus! {

/// Whether the rights `perms` let user code read (`write` false) or write
/// (`write` true) a page.
pub open spec fn allows(perms: Permissions, write: bool) -> bool {
    perms.user && if write {
        perms.write
    } else {
        perms.read
    }
}

/// Whether `va` is an address on a mapped page that user code may read or
/// write.
pub open spec fn byte_accessible(table: Map<usize, PageTableEntry>, va: int, write: bool) -> bool {
    &&& 0 <= va <= usize::MAX
    &&& table.contains_key((va / PAGE_SIZE as int) as usize)
    &&& allows(table[(va / PAGE_SIZE as int) as usize].perms, write)
}

/// Whether each of the `len` addresses from `addr` is accessible.
pub open spec fn range_accessible(
    table: Map<usize, PageTableEntry>,
    addr: usize,
    len: nat,
    write: bool,
) -> bool {
    forall|i: int| 0 <= i < len ==> #[trigger] byte_accessible(table, addr + i, write)
}

/// The byte that the user address `va` holds.
pub open spec fn user_byte(
    table: Map<usize, PageTableEntry>,
    frames: Map<usize, Seq<u8>>,
    va: int,
) -> u8 {
    frames[table[(va / PAGE_SIZE as int) as usize].frame][va % PAGE_SIZE as int]
}

/// The `len` bytes that the user addresses from `addr` hold, as one
/// sequence.
pub open spec fn user_bytes(
    table: Map<usize, PageTableEntry>,
    frames: Map<usize, Seq<u8>>,
    addr: usize,
    len: nat,
) -> Seq<u8> {
    Seq::new(len, |i: int| user_byte(table, frames, addr + i))
}

/// The sequence `s` with `data` written over it from position `at`.
pub open spec fn splice(s: Seq<u8>, at: int, data: Seq<u8>) -> Seq<u8> {
    Seq::new(
        s.len(),
        |o: int|
            if at <= o < at + data.len() {
                data[o - at]
            } else {
                s[o]
            },
    )
}

/// How a call of `write_user` with the answer `r` takes the allocator
/// from `pre` to `post`: a refused write changes nothing; after a
/// write that was carried out, the user addresses hold `data`, every other
/// mapped address holds what it held, and the frames that the address
/// space does not use are as they were.
pub open spec fn write_user_post(
    space: AddressSpaceView,
    pre: FrameAllocatorView,
    post: FrameAllocatorView,
    dest: usize,
    data: Seq<u8>,
    r: Result<(), MemError>,
) -> bool {
    &&& r == (if range_accessible(space.table, dest, data.len(), true) {
        Ok::<(), MemError>(())
    } else {
        Err::<(), MemError>(MemError::NotMapped)
    })
    &&& post.capacity == pre.capacity
    &&& r is Err ==> post == pre
    &&& r is Ok ==> {
        &&& post.frames.dom() == pre.frames.dom()
        &&& user_bytes(space.table, post.frames, dest, data.len()) == data
        &&& forall|va: int|
            0 <= va <= usize::MAX && #[trigger] space.table.contains_key(
                (va / PAGE_SIZE as int) as usize,
            ) && !(dest <= va < dest + data.len()) ==> user_byte(space.table, post.frames, va)
                == user_byte(space.table, pre.frames, va)
        &&& forall|f: usize|
            pre.frames.contains_key(f) && !space.frames().contains(f) ==> #[trigger] post.frames[f]
                == pre.frames[f]
    }
}

/// What `read_user` answers: the bytes at the user addresses if each of
/// them is readable, and a refusal otherwise.
pub open spec fn read_user_post(
    space: AddressSpaceView,
    alloc: FrameAllocatorView,
    src: usize,
    len: usize,
    r: Result<Vec<u8>, MemError>,
) -> bool {
    match r {
        Ok(bytes) => range_accessible(space.table, src, len as nat, false) && bytes@ == user_bytes(
            space.table,
            alloc.frames,
            src,
            len as nat,
        ),
        Err(e) => !range_accessible(space.table, src, len as nat, false) && e
            == MemError::NotMapped,
    }
}

/// Whether `table` maps page `vpn` to the frame `frame`.
pub open spec fn backs(table: Map<usize, PageTableEntry>, vpn: int, frame: usize) -> bool {
    table.contains_key(vpn as usize) && table[vpn as usize].frame == frame
}

/// Whether `frames` lists, page by page, the frames behind the addresses
/// `addr .. addr + len`.
pub open spec fn resolved(
    table: Map<usize, PageTableEntry>,
    addr: usize,
    len: usize,
    frames: Seq<usize>,
) -> bool {
    let first = addr as int / PAGE_SIZE as int;
    let last = (addr + len - 1) / PAGE_SIZE as int;
    if len == 0 {
        frames.len() == 0
    } else {
        &&& addr + len - 1 <= usize::MAX
        &&& frames.len() == last - first + 1
        &&& forall|q: int| 0 <= q < frames.len() ==> backs(table, first + q, #[trigger] frames[q])
    }
}

/// Checks that user code may read (or, with `write`, write) each of the
/// `len` addresses from `addr`, and looks up the frame behind each page
/// that they touch.
fn resolve(space: &AddressSpace, addr: usize, len: usize, write: bool) -> (r: Option<Vec<usize>>)
    ensures
        r is Some <==> range_accessible(space@.table, addr, len as nat, write),
        r matches Some(frames) ==> resolved(space@.table, addr, len, frames@),
{
    let mut frames: Vec<usize> = Vec::new();
    if len == 0 {
        return Some(frames);
    }
    if len - 1 > usize::MAX - addr {
        proof {
            assert(!byte_accessible(space@.table, addr + (len - 1), write));
        }
        return None;
    }
    let first: usize = addr / PAGE_SIZE;
    let last: usize = (addr + (len - 1)) / PAGE_SIZE;
    let mut vpn: usize = first;
    while vpn <= last
        invariant
            len > 0,
            addr + len - 1 <= usize::MAX,
            first == addr / PAGE_SIZE,
            last == (addr + (len - 1)) / PAGE_SIZE as int,
            first <= vpn <= last + 1,
            frames@.len() == vpn - first,
            forall|q: int|
                0 <= q < frames@.len() ==> backs(space@.table, first + q, #[trigger] frames@[q])
                    && allows(space@.table[(first + q) as usize].perms, write),
        decreases last + 1 - vpn,
    {
        let ghost probe: int = if vpn == first {
            addr as int
        } else {
            vpn * PAGE_SIZE
        };
        proof {
            assert(addr <= probe <= addr + len - 1);
            assert(probe / PAGE_SIZE as int == vpn);
        }
        match space.translate(vpn) {
            None => {
                proof {
                    assert(!byte_accessible(space@.table, addr + (probe - addr), write));
                }
                return None;
            },
            Some((frame, perms)) => {
                let allowed = perms.user && if write {
                    perms.write
                } else {
                    perms.read
                };
                if !allowed {
                    proof {
                        assert(!byte_accessible(space@.table, addr + (probe - addr), write));
                    }
                    return None;
                }
                frames.push(frame);
            },
        }
        vpn = vpn + 1;
    }
    proof {
        assert forall|i: int| 0 <= i < len implies #[trigger] byte_accessible(
            space@.table,
            addr + i,
            write,
        ) by {
            let v = (addr + i) / PAGE_SIZE as int;
            assert(first <= v <= last);
            let q = v - first;
            assert(frames@[q] == space@.table[(first + q) as usize].frame);
        }
    }
    Some(frames)
}

/// Writes the bytes `src[from .. from + count]` into the allocated frame
/// `frame`, from the offset `at`.
fn write_chunk(
    alloc: &mut FrameAllocator,
    frame: usize,
    at: usize,
    src: &[u8],
    from: usize,
    count: usize,
)
    requires
        old(alloc).wf(),
        old(alloc)@.is_allocated(frame),
        at + count <= PAGE_SIZE,
        from + count <= src@.len(),
    ensures
        final(alloc).wf(),
        final(alloc)@.capacity == old(alloc)@.capacity,
        final(alloc)@.frames == old(alloc)@.frames.insert(
            frame,
            splice(old(alloc)@.frames[frame], at as int, src@.subrange(from as int, from + count)),
        ),
{
    let total: usize = src.len();
    let mut k: usize = 0;
    proof {
        assert(splice(alloc@.frames[frame], at as int, src@.subrange(from as int, from as int))
            =~= alloc@.frames[frame]);
        assert(alloc@.frames =~= alloc@.frames.insert(frame, alloc@.frames[frame]));
    }
    while k < count
        invariant
            k <= count,
            at + count <= PAGE_SIZE,
            total == src@.len(),
            from + count <= total,
            old(alloc).wf(),
            old(alloc)@.is_allocated(frame),
            alloc.wf(),
            alloc@.capacity == old(alloc)@.capacity,
            alloc@.frames == old(alloc)@.frames.insert(
                frame,
                splice(old(alloc)@.frames[frame], at as int, src@.subrange(from as int, from + k)),
            ),
        decreases count - k,
    {
        alloc.write_byte(frame, at + k, src[from + k]);
        proof {
            let base = old(alloc)@.frames[frame];
            assert(splice(base, at as int, src@.subrange(from as int, from + k)).update(
                at + k,
                src@[from + k],
            ) =~= splice(base, at as int, src@.subrange(from as int, from + k + 1)));
        }
        k = k + 1;
    }
}

/// Appends to `out` the `count` bytes that the allocated frame `frame`
/// holds from the offset `at`.
fn read_chunk(alloc: &FrameAllocator, frame: usize, at: usize, count: usize, out: &mut Vec<u8>)
    requires
        alloc.wf(),
        alloc@.is_allocated(frame),
        at + count <= PAGE_SIZE,
    ensures
        final(out)@ == old(out)@ + alloc@.frames[frame].subrange(at as int, at + count),
{
    let mut k: usize = 0;
    proof {
        assert(out@ =~= old(out)@ + alloc@.frames[frame].subrange(at as int, at as int));
    }
    while k < count
        invariant
            k <= count,
            at + count <= PAGE_SIZE,
            alloc.wf(),
            alloc@.is_allocated(frame),
            out@ == old(out)@ + alloc@.frames[frame].subrange(at as int, at + k),
        decreases count - k,
    {
        out.push(alloc.read_byte(frame, at + k));
        proof {
            assert(out@ =~= old(out)@ + alloc@.frames[frame].subrange(at as int, at + k + 1));
        }
        k = k + 1;
    }
}

/// Copies `src` into the task's memory at the user address `dest`, page
/// by page. The write is all or nothing: unless user code may write every
/// address of the range, no byte is written and `NotMapped` is returned.
pub fn write_user(space: &AddressSpace, alloc: &mut FrameAllocator, dest: usize, src: &[u8]) -> (r:
    Result<(), MemError>)
    requires
        space.wf(),
        old(alloc).wf(),
        space.backed_by(old(alloc)),
    ensures
        final(alloc).wf(),
        space.backed_by(final(alloc)),
        write_user_post(space@, old(alloc)@, final(alloc)@, dest, src@, r),
{
    let len: usize = src.len();
    let frames = match resolve(space, dest, len, true) {
        Some(frames) => frames,
        None => {
            return Err(MemError::NotMapped);
        },
    };
    let first: usize = dest / PAGE_SIZE;
    let ghost table = space@.table;
    let ghost pre = alloc@.frames;
    let mut done: usize = 0;
    while done < len
        invariant
            space.wf(),
            old(alloc).wf(),
            space.backed_by(old(alloc)),
            table == space@.table,
            pre == old(alloc)@.frames,
            len == src@.len(),
            first == dest / PAGE_SIZE,
            resolved(table, dest, len, frames@),
            done <= len,
            alloc.wf(),
            alloc@.capacity == old(alloc)@.capacity,
            alloc@.frames.dom() == pre.dom(),
            forall|q: int, o: int|
                0 <= q < frames@.len() && 0 <= o < PAGE_SIZE ==> #[trigger] alloc@.frames[frames@[q]][o]
                    == (if 0 <= (first + q) * PAGE_SIZE + o - dest < done {
                    src@[(first + q) * PAGE_SIZE + o - dest]
                } else {
                    pre[frames@[q]][o]
                }),
            forall|f: usize|
                pre.contains_key(f) && !frames@.contains(f) ==> #[trigger] alloc@.frames[f]
                    == pre[f],
        decreases len - done,
    {
        let va: usize = dest + done;
        let at: usize = va % PAGE_SIZE;
        let page: usize = va / PAGE_SIZE - first;
        let room: usize = PAGE_SIZE - at;
        let count: usize = if len - done < room {
            len - done
        } else {
            room
        };
        let frame: usize = frames[page];
        let ghost before = alloc@.frames;
        proof {
            assert(table.contains_key((first + page) as usize));
            assert(old(alloc)@.is_allocated(table[(first + page) as usize].frame));
            assert(before.dom().contains(frame));
        }
        write_chunk(alloc, frame, at, src, done, count);
        proof {
            let after = alloc@.frames;
            let chunk = src@.subrange(done as int, done + count);
            assert(after.dom() =~= pre.dom());
            assert forall|q: int| 0 <= q < frames@.len() && q != page implies frames@[q]
                != frame by {
                let v = (first + q) as usize;
                let w = (first + page) as usize;
                assert(frames@[q] == table[v].frame);
                assert(frames@[page as int] == table[w].frame);
                assert(table[v].frame != table[w].frame);
            }
            assert forall|q: int, o: int|
                0 <= q < frames@.len() && 0 <= o < PAGE_SIZE implies #[trigger] after[frames@[q]][o]
                == (if 0 <= (first + q) * PAGE_SIZE + o - dest < done + count {
                src@[(first + q) * PAGE_SIZE + o - dest]
            } else {
                pre[frames@[q]][o]
            }) by {
                let i = (first + q) * PAGE_SIZE + o - dest;
                assert(before[frames@[q]][o] == (if 0 <= i < done {
                    src@[i]
                } else {
                    pre[frames@[q]][o]
                }));
                if q == page {
                    assert(after[frame] == splice(before[frame], at as int, chunk));
                    assert(before.dom().contains(frame));
                    assert(before[frame].len() == PAGE_SIZE);
                    if at <= o < at + count {
                        assert(chunk[o - at] == src@[done + (o - at)]);
                    }
                } else {
                    assert(after[frames@[q]] == before[frames@[q]]);
                }
            }
            assert forall|f: usize|
                pre.contains_key(f) && !frames@.contains(f) implies #[trigger] after[f]
                == pre[f] by {
                assert(frames@[page as int] == frame);
                assert(f != frame);
            }
        }
        done = done + count;
    }
    proof {
        let post = alloc@.frames;
        assert(user_bytes(table, post, dest, len as nat) =~= src@) by {
            assert forall|i: int| 0 <= i < len implies user_byte(table, post, dest + i)
                == src@[i] by {
                let v = (dest + i) / PAGE_SIZE as int;
                let o = (dest + i) % PAGE_SIZE as int;
                let q = v - first;
                assert(0 <= q < frames@.len());
                assert(frames@[q] == table[(first + q) as usize].frame);
                assert(post[frames@[q]][o] == src@[(first + q) * PAGE_SIZE + o - dest]);
            }
        }
        assert forall|va: int|
            0 <= va <= usize::MAX && #[trigger] table.contains_key(
                (va / PAGE_SIZE as int) as usize,
            ) && !(dest <= va < dest + len) implies user_byte(table, post, va) == user_byte(
            table,
            pre,
            va,
        ) by {
            let v = (va / PAGE_SIZE as int) as usize;
            let o = va % PAGE_SIZE as int;
            let f = table[v].frame;
            let last = (dest + len - 1) / PAGE_SIZE as int;
            assert(pre.contains_key(f));
            if len > 0 && first <= v <= last {
                let q = v - first;
                assert(frames@[q] == table[(first + q) as usize].frame);
                assert(post[frames@[q]][o] == pre[frames@[q]][o]);
            } else {
                if frames@.contains(f) {
                    let q = choose|q: int| 0 <= q < frames@.len() && frames@[q] == f;
                    let w = (first + q) as usize;
                    assert(frames@[q] == table[w].frame);
                    assert(table[v].frame != table[w].frame);
                }
                assert(post[f] == pre[f]);
            }
        }
        assert forall|f: usize|
            pre.contains_key(f) && !space@.frames().contains(f) implies #[trigger] post[f]
            == pre[f] by {
            if frames@.contains(f) {
                let q = choose|q: int| 0 <= q < frames@.len() && frames@[q] == f;
                let w = (first + q) as usize;
                assert(frames@[q] == table[w].frame);
                assert(table.contains_key(w) && table[w].frame == f);
            }
        }
    }
    Ok(())
}

/// Copies the `len` bytes at the user address `src` out of the task's
/// memory, page by page. Unless user code may read every address of the
/// range, `NotMapped` is returned.
pub fn read_user(space: &AddressSpace, alloc: &FrameAllocator, src: usize, len: usize) -> (r:
    Result<Vec<u8>, MemError>)
    requires
        space.wf(),
        alloc.wf(),
        space.backed_by(alloc),
    ensures
        read_user_post(space@, alloc@, src, len, r),
{
    let frames = match resolve(space, src, len, false) {
        Some(frames) => frames,
        None => {
            return Err(MemError::NotMapped);
        },
    };
    let first: usize = src / PAGE_SIZE;
    let ghost table = space@.table;
    let mut out: Vec<u8> = Vec::new();
    let mut done: usize = 0;
    proof {
        assert(out@ =~= user_bytes(table, alloc@.frames, src, 0));
    }
    while done < len
        invariant
            space.wf(),
            alloc.wf(),
            space.backed_by(alloc),
            table == space@.table,
            first == src / PAGE_SIZE,
            resolved(table, src, len, frames@),
            done <= len,
            out@ == user_bytes(table, alloc@.frames, src, done as nat),
        decreases len - done,
    {
        let va: usize = src + done;
        let at: usize = va % PAGE_SIZE;
        let page: usize = va / PAGE_SIZE - first;
        let room: usize = PAGE_SIZE - at;
        let count: usize = if len - done < room {
            len - done
        } else {
            room
        };
        let frame: usize = frames[page];
        proof {
            assert(table.contains_key((first + page) as usize));
            assert(alloc@.is_allocated(table[(first + page) as usize].frame));
        }
        read_chunk(alloc, frame, at, count, &mut out);
        proof {
            assert(out@ =~= user_bytes(table, alloc@.frames, src, (done + count) as nat)) by {
                assert forall|i: int| done <= i < done + count implies out@[i] == user_byte(
                    table,
                    alloc@.frames,
                    src + i,
                ) by {
                    assert((src + i) / PAGE_SIZE as int == first + page);
                    assert((src + i) % PAGE_SIZE as int == at + (i - done));
                }
            }
        }
        done = done + count;
    }
    Ok(out)
}

} // verus!
