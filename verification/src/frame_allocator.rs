//! The pool of physical frames: which are handed out, and what they hold.

use vstd::prelude::*;
use crate::config::PAGE_SIZE;
use crate::error::MemError;

verus! {

/// A page of zero bytes: what a freshly allocated frame holds.
pub open spec fn zero_page() -> Seq<u8> {
    Seq::new(PAGE_SIZE as nat, |i: int| 0u8)
}

/// What a frame pool is, mathematically: how many frames exist, and the
/// contents of each frame that is currently handed out. A frame number
/// below `capacity` that is not a key of `frames` is free.
#[verifier::ext_equal]
pub struct FrameAllocatorView {
    pub capacity: nat,
    pub frames: Map<usize, Seq<u8>>,
}

impl FrameAllocatorView {
    /// Whether the pool is well formed: its memory can be addressed, and
    /// the frames handed out are frames of the pool, a page each.
    pub open spec fn wf(self) -> bool {
        &&& self.capacity * PAGE_SIZE <= usize::MAX
        &&& self.frames.dom().finite()
        &&& self.frames.dom().len() <= self.capacity
        &&& forall|f: usize| #[trigger]
            self.frames.contains_key(f) ==> f < self.capacity && self.frames[f].len() == PAGE_SIZE
    }

    /// Number of frames that can still be handed out.
    pub open spec fn free_count(self) -> nat {
        (self.capacity - self.frames.dom().len()) as nat
    }

    /// Whether frame `f` exists and is not handed out.
    pub open spec fn is_free(self, f: usize) -> bool {
        f < self.capacity && !self.frames.contains_key(f)
    }

    /// Whether frame `f` is handed out.
    pub open spec fn is_allocated(self, f: usize) -> bool {
        self.frames.contains_key(f)
    }
}

/// An arena of `capacity` physical frames of `PAGE_SIZE` bytes each,
/// addressed by frame number, with a free list.
pub struct FrameAllocator {
    /// Frame numbers that are free, used as a stack.
    free: Vec<usize>,
    /// One flag per frame: whether it is handed out.
    in_use: Vec<bool>,
    /// Physical memory: frame `f` is the bytes from `f * PAGE_SIZE`.
    memory: Vec<u8>,
}

impl View for FrameAllocator {
    type V = FrameAllocatorView;

    closed spec fn view(&self) -> FrameAllocatorView {
        FrameAllocatorView {
            capacity: self.in_use@.len(),
            frames: Map::new(
                |f: usize| f < self.in_use@.len() && self.in_use@[f as int],
                |f: usize| self.memory@.subrange(f * PAGE_SIZE, f * PAGE_SIZE + PAGE_SIZE),
            ),
        }
    }
}

impl FrameAllocator {
    /// The representation invariant: the free list and the flags agree.
    pub closed spec fn inv(&self) -> bool {
        &&& self.memory@.len() == self.in_use@.len() * PAGE_SIZE
        &&& self.free@.no_duplicates()
        &&& forall|i: int|
            0 <= i < self.free@.len() ==> #[trigger] self.free@[i] < self.in_use@.len()
                && !self.in_use@[self.free@[i] as int]
        &&& self@.frames.dom().len() + self.free@.len() == self.in_use@.len()
    }

    /// Whether the pool is well formed.
    pub open spec fn wf(&self) -> bool {
        self.inv() && self@.wf()
    }

    /// Creates a pool of `capacity` frames, all of them free. There is no
    /// pool whose memory could not be addressed.
    pub fn new(capacity: usize) -> (r: Option<FrameAllocator>)
        ensures
            r is Some <==> capacity * PAGE_SIZE <= usize::MAX,
            r matches Some(a) ==> a.wf() && a@.capacity == capacity && a@.frames
                == Map::<usize, Seq<u8>>::empty(),
    {
        if capacity > usize::MAX / PAGE_SIZE {
            return None;
        }
        let memory = vec![0u8; capacity * PAGE_SIZE];
        let in_use = vec![false; capacity];
        let mut free: Vec<usize> = Vec::new();
        let mut f: usize = capacity;
        while f > 0
            invariant
                f <= capacity,
                free@.len() == capacity - f,
                forall|i: int| 0 <= i < free@.len() ==> #[trigger] free@[i] == capacity - 1 - i,
            decreases f,
        {
            f = f - 1;
            free.push(f);
        }
        let a = FrameAllocator { free, in_use, memory };
        proof {
            assert(a@.frames =~= Map::<usize, Seq<u8>>::empty());
        }
        Some(a)
    }

    /// Number of frames in the pool, free or not.
    pub fn capacity(&self) -> (n: usize)
        requires
            self.wf(),
        ensures
            n == self@.capacity,
    {
        self.in_use.len()
    }

    /// Number of frames that can still be handed out.
    pub fn free_count(&self) -> (n: usize)
        requires
            self.wf(),
        ensures
            n == self@.free_count(),
    {
        self.free.len()
    }

    /// Whether `frame` is handed out.
    pub fn is_allocated(&self, frame: usize) -> (b: bool)
        requires
            self.wf(),
        ensures
            b == self@.is_allocated(frame),
    {
        frame < self.in_use.len() && self.in_use[frame]
    }

    /// Hands out a free frame, filled with zero bytes. Which free frame is
    /// chosen is not promised. Fails exactly when no frame is free, and then
    /// changes nothing.
    pub fn allocate(&mut self) -> (r: Result<usize, MemError>)
        requires
            old(self).wf(),
        ensures
            final(self).wf(),
            final(self)@.capacity == old(self)@.capacity,
            r is Ok <==> old(self)@.free_count() > 0,
            match r {
                Ok(f) => old(self)@.is_free(f) && final(self)@.frames == old(self)@.frames.insert(
                    f,
                    zero_page(),
                ),
                Err(e) => e == MemError::OutOfMemory && final(self)@ == old(self)@,
            },
    {
        match self.free.pop() {
            None => Err(MemError::OutOfMemory),
            Some(f) => {
                let base = f * PAGE_SIZE;
                let mut i: usize = 0;
                while i < PAGE_SIZE
                    invariant
                        i <= PAGE_SIZE,
                        base == f * PAGE_SIZE,
                        base + PAGE_SIZE <= self.memory@.len(),
                        self.memory@.len() == old(self).memory@.len(),
                        self.in_use == old(self).in_use,
                        old(self).free@.len() > 0,
                        self.free@ == old(self).free@.drop_last(),
                        forall|j: int|
                            0 <= j < self.memory@.len() ==> #[trigger] self.memory@[j] == (if base
                                <= j < base + i {
                                0u8
                            } else {
                                old(self).memory@[j]
                            }),
                    decreases PAGE_SIZE - i,
                {
                    self.memory.set(base + i, 0u8);
                    i = i + 1;
                }
                self.in_use.set(f, true);
                proof {
                    let old_frames = old(self)@.frames;
                    let new_frames = self@.frames;
                    assert forall|g: usize| #[trigger] new_frames.contains_key(g) implies (g == f
                        || old_frames.contains_key(g)) by {}
                    assert forall|g: usize|
                        old_frames.contains_key(g) implies #[trigger] new_frames[g]
                        == old_frames[g] by {
                        assert(g != f);
                        assert(new_frames[g] =~= old_frames[g]);
                    }
                    assert(new_frames[f] =~= zero_page());
                    assert(new_frames =~= old_frames.insert(f, zero_page()));
                }
                Ok(f)
            },
        }
    }

    /// Takes `frame` back into the pool. Releasing a frame that is not handed
    /// out, or that does not exist, changes nothing.
    pub fn release(&mut self, frame: usize)
        requires
            old(self).wf(),
        ensures
            final(self).wf(),
            final(self)@.capacity == old(self)@.capacity,
            final(self)@.frames == old(self)@.frames.remove(frame),
    {
        if frame < self.in_use.len() && self.in_use[frame] {
            self.in_use.set(frame, false);
            self.free.push(frame);
            proof {
                let old_frames = old(self)@.frames;
                let new_frames = self@.frames;
                assert(new_frames =~= old_frames.remove(frame));
                assert forall|i: int, j: int|
                    0 <= i < self.free@.len() && 0 <= j < self.free@.len() && i != j implies self.free@[i]
                    != self.free@[j] by {}
            }
        } else {
            proof {
                assert(self@.frames =~= old(self)@.frames.remove(frame));
            }
        }
    }

    /// The byte at `offset` in the allocated frame `frame`.
    pub fn read_byte(&self, frame: usize, offset: usize) -> (b: u8)
        requires
            self.wf(),
            self@.is_allocated(frame),
            offset < PAGE_SIZE,
        ensures
            b == self@.frames[frame][offset as int],
    {
        self.memory[frame * PAGE_SIZE + offset]
    }

    /// Stores `value` at `offset` in the allocated frame `frame`.
    pub fn write_byte(&mut self, frame: usize, offset: usize, value: u8)
        requires
            old(self).wf(),
            old(self)@.is_allocated(frame),
            offset < PAGE_SIZE,
        ensures
            final(self).wf(),
            final(self)@.capacity == old(self)@.capacity,
            final(self)@.frames == old(self)@.frames.insert(
                frame,
                old(self)@.frames[frame].update(offset as int, value),
            ),
    {
        self.memory.set(frame * PAGE_SIZE + offset, value);
        proof {
            let old_frames = old(self)@.frames;
            let new_frames = self@.frames;
            assert forall|g: usize| old_frames.contains_key(g) && g != frame implies #[trigger] new_frames[g]
                == old_frames[g] by {
                assert(new_frames[g] =~= old_frames[g]);
            }
            assert(new_frames[frame] =~= old_frames[frame].update(offset as int, value));
            assert(new_frames =~= old_frames.insert(
                frame,
                old_frames[frame].update(offset as int, value),
            ));
        }
    }
}

} // verus!
