use user_mm::address_space::AddressSpace;
use user_mm::config::{page_count_for, PAGE_SIZE};
use user_mm::error::MemError;
use user_mm::frame_allocator::FrameAllocator;
use user_mm::permissions::{Permissions, PERM_EXEC, PERM_READ, PERM_WRITE};

const HEAP: usize = 0x10_0000;

fn setup(frames: usize) -> (AddressSpace, FrameAllocator) {
    let space = match AddressSpace::new(HEAP) {
        Ok(s) => s,
        Err(e) => panic!("refused: {:?}", e),
    };
    (space, FrameAllocator::new(frames).unwrap())
}

fn areas(space: &AddressSpace) -> Vec<(usize, usize, Permissions)> {
    let mut v = vec![];
    for i in 0..space.area_count() {
        v.push(space.area(i).unwrap());
    }
    v
}

fn user(read: bool, write: bool, execute: bool) -> Permissions {
    Permissions { read, write, execute, user: true }
}

#[test]
fn page_count_rounds_up() {
    assert_eq!(page_count_for(0), 0);
    assert_eq!(page_count_for(1), 1);
    assert_eq!(page_count_for(4095), 1);
    assert_eq!(page_count_for(4096), 1);
    assert_eq!(page_count_for(4097), 2);
    assert_eq!(page_count_for(usize::MAX), usize::MAX / PAGE_SIZE + 1);
}

#[test]
fn new_space_needs_an_aligned_heap_base() {
    assert!(matches!(AddressSpace::new(0x1001), Err(MemError::InvalidAlignment)));
    let space = match AddressSpace::new(0x3000) {
        Ok(s) => s,
        Err(e) => panic!("refused: {:?}", e),
    };
    assert_eq!(space.brk(), 0x3000);
    assert_eq!(space.heap_base(), 0x3000);
    assert_eq!(space.heap_pages(), 0);
    assert_eq!(space.area_count(), 0);
    assert_eq!(space.translate(3), None);
}

#[test]
fn mmap_one_page_then_munmap() {
    let (mut space, mut alloc) = setup(8);
    let free = alloc.free_count();
    assert_eq!(space.mmap(&mut alloc, 0x1000, 4096, PERM_READ | PERM_WRITE), Ok(4096));
    assert_eq!(areas(&space), vec![(1, 1, user(true, true, false))]);
    let (frame, perms) = space.translate(1).unwrap();
    assert_eq!(perms, user(true, true, false));
    assert!(alloc.is_allocated(frame));
    assert_eq!(space.translate(0), None);
    assert_eq!(space.translate(2), None);
    assert_eq!(alloc.free_count(), free - 1);
    assert_eq!(space.sbrk(&mut alloc, 0), Some(HEAP));
    assert_eq!(space.brk(), HEAP);
    assert_eq!(space.munmap(&mut alloc, 0x1000, 4096), Ok(()));
    assert_eq!(space.area_count(), 0);
    assert_eq!(space.translate(1), None);
    assert_eq!(alloc.free_count(), free);
    assert!(!alloc.is_allocated(frame));
}

#[test]
fn mmap_rounds_the_length_up_to_pages() {
    let (mut space, mut alloc) = setup(8);
    assert_eq!(space.mmap(&mut alloc, 0x4000, 1, PERM_READ), Ok(4096));
    assert_eq!(space.mmap(&mut alloc, 0x8000, 4097, PERM_WRITE), Ok(8192));
    assert_eq!(space.mmap(&mut alloc, 0x20000, 3 * 4096, PERM_EXEC | PERM_READ), Ok(3 * 4096));
    assert_eq!(
        areas(&space),
        vec![
            (4, 1, user(true, false, false)),
            (8, 2, user(false, true, false)),
            (0x20, 3, user(true, false, true)),
        ]
    );
    assert_eq!(alloc.free_count(), 2);
}

#[test]
fn mmap_keeps_the_areas_ordered() {
    let (mut space, mut alloc) = setup(8);
    assert_eq!(space.mmap(&mut alloc, 0x5000, 4096, 3), Ok(4096));
    assert_eq!(space.mmap(&mut alloc, 0x1000, 4096, 1), Ok(4096));
    assert_eq!(space.mmap(&mut alloc, 0x3000, 8192, 2), Ok(8192));
    assert_eq!(space.mmap(&mut alloc, 0x9000, 4096, 4), Ok(4096));
    assert_eq!(
        areas(&space),
        vec![
            (1, 1, user(true, false, false)),
            (3, 2, user(false, true, false)),
            (5, 1, user(true, true, false)),
            (9, 1, user(false, false, true)),
        ]
    );
}

#[test]
fn mmap_of_no_bytes_reserves_nothing() {
    let (mut space, mut alloc) = setup(2);
    assert_eq!(space.mmap(&mut alloc, 0x1000, 0, 3), Ok(0));
    assert_eq!(space.area_count(), 0);
    assert_eq!(alloc.free_count(), 2);
    assert_eq!(space.translate(1), None);
}

#[test]
fn mmap_unaligned_start_fails_and_changes_nothing() {
    let (mut space, mut alloc) = setup(4);
    assert_eq!(space.mmap(&mut alloc, 0x2000, 4096, 3), Ok(4096));
    let before = areas(&space);
    for start in [1usize, 0x1001, 0x1fff, 0x2800, usize::MAX] {
        assert_eq!(space.mmap(&mut alloc, start, 4096, 3), Err(MemError::InvalidAlignment));
        assert_eq!(areas(&space), before);
        assert_eq!(alloc.free_count(), 3);
        assert_eq!(space.brk(), HEAP);
    }
    assert_eq!(space.mmap(&mut alloc, 0x1001, 4096, 0), Err(MemError::InvalidAlignment));
}

#[test]
fn mmap_with_no_permission_fails() {
    let (mut space, mut alloc) = setup(4);
    assert_eq!(space.mmap(&mut alloc, 0x1000, 4096, 0), Err(MemError::InvalidPermissions));
    assert_eq!(space.area_count(), 0);
    assert_eq!(alloc.free_count(), 4);
    assert_eq!(space.translate(1), None);
}

#[test]
fn mmap_with_unknown_permission_bits_fails() {
    let (mut space, mut alloc) = setup(4);
    for bits in [8usize, 9, 0x10, 0xff, usize::MAX] {
        assert_eq!(space.mmap(&mut alloc, 0x1000, 4096, bits), Err(MemError::InvalidPermissions));
    }
    assert_eq!(space.area_count(), 0);
    assert_eq!(alloc.free_count(), 4);
}

#[test]
fn overlapping_mmap_fails_and_leaves_the_areas_alone() {
    let (mut space, mut alloc) = setup(16);
    assert_eq!(space.mmap(&mut alloc, 0x1000, 2 * 4096, 3), Ok(8192));
    assert_eq!(space.mmap(&mut alloc, 0x5000, 2 * 4096, 1), Ok(8192));
    let before = areas(&space);
    let frames: Vec<_> = [1usize, 2, 5, 6].iter().map(|v| space.translate(*v)).collect();
    let free = alloc.free_count();
    for (start, len) in [
        (0x1000usize, 4096usize),
        (0x2000, 4096),
        (0x0000, 2 * 4096),
        (0x2000, 2 * 4096),
        (0x0000, 16 * 4096),
        (0x6000, 1),
        (0x4000, 4097),
        (0x1000, 2 * 4096),
    ] {
        assert_eq!(space.mmap(&mut alloc, start, len, 3), Err(MemError::Overlap));
        assert_eq!(areas(&space), before);
        assert_eq!(alloc.free_count(), free);
        let now: Vec<_> = [1usize, 2, 5, 6].iter().map(|v| space.translate(*v)).collect();
        assert_eq!(now, frames);
    }
    assert_eq!(space.mmap(&mut alloc, 0x3000, 2 * 4096, 3), Ok(8192));
    assert_eq!(space.mmap(&mut alloc, 0x0000, 4096, 3), Ok(4096));
}

#[test]
fn mmap_without_enough_frames_is_out_of_memory() {
    let (mut space, mut alloc) = setup(2);
    assert_eq!(space.mmap(&mut alloc, 0x1000, 3 * 4096, 3), Err(MemError::OutOfMemory));
    assert_eq!(space.area_count(), 0);
    assert_eq!(alloc.free_count(), 2);
    for vpn in 1..4 {
        assert_eq!(space.translate(vpn), None);
    }
    assert_eq!(space.mmap(&mut alloc, 0x1000, usize::MAX, 3), Err(MemError::OutOfMemory));
    assert_eq!(space.mmap(&mut alloc, 0x1000, 2 * 4096, 3), Ok(8192));
    assert_eq!(space.mmap(&mut alloc, 0x8000, 1, 3), Err(MemError::OutOfMemory));
}

#[test]
fn mmap_then_munmap_restores_the_area_set() {
    let (mut space, mut alloc) = setup(16);
    assert_eq!(space.mmap(&mut alloc, 0x1000, 4096, 3), Ok(4096));
    assert_eq!(space.mmap(&mut alloc, 0x9000, 4096, 1), Ok(4096));
    let before = areas(&space);
    let free = alloc.free_count();
    for (start, len) in [(0x3000usize, 1usize), (0x3000, 4096), (0x2000, 5 * 4096 + 1), (0, 100)] {
        assert!(space.mmap(&mut alloc, start, len, 2).is_ok());
        assert_eq!(space.area_count(), 3);
        assert_eq!(space.munmap(&mut alloc, start, len), Ok(()));
        assert_eq!(areas(&space), before);
        assert_eq!(alloc.free_count(), free);
    }
}

#[test]
fn munmap_needs_an_aligned_start() {
    let (mut space, mut alloc) = setup(4);
    assert_eq!(space.mmap(&mut alloc, 0x1000, 4096, 3), Ok(4096));
    assert_eq!(space.munmap(&mut alloc, 0x1001, 4095), Err(MemError::InvalidAlignment));
    assert_eq!(space.area_count(), 1);
    assert_eq!(alloc.free_count(), 3);
}

#[test]
fn munmap_of_a_range_that_is_no_whole_area_fails() {
    let (mut space, mut alloc) = setup(16);
    assert_eq!(space.mmap(&mut alloc, 0x2000, 3 * 4096, 3), Ok(3 * 4096));
    assert_eq!(space.mmap(&mut alloc, 0x8000, 4096, 3), Ok(4096));
    let before = areas(&space);
    let free = alloc.free_count();
    for (start, len) in [
        (0x2000usize, 4096usize),
        (0x3000, 4096),
        (0x4000, 4096),
        (0x2000, 2 * 4096),
        (0x3000, 2 * 4096),
        (0x1000, 4 * 4096),
        (0x2000, 4 * 4096),
        (0x1000, 5 * 4096),
        (0x2000, 7 * 4096),
        (0x6000, 4096),
        (0x0000, 4096),
        (0x2000, 0),
        (0x8000, 4097),
        (0x7000, 2 * 4096),
    ] {
        assert_eq!(space.munmap(&mut alloc, start, len), Err(MemError::NotMapped));
        assert_eq!(areas(&space), before);
        assert_eq!(alloc.free_count(), free);
        for vpn in [2usize, 3, 4, 8] {
            assert!(space.translate(vpn).is_some());
        }
    }
    assert_eq!(space.munmap(&mut alloc, 0x2000, 3 * 4096 - 1), Ok(()));
    assert_eq!(areas(&space), vec![(8, 1, user(true, true, false))]);
}

#[test]
fn munmap_takes_several_whole_areas_that_lie_end_to_start() {
    let (mut space, mut alloc) = setup(16);
    assert_eq!(space.mmap(&mut alloc, 0x1000, 4096, 1), Ok(4096));
    assert_eq!(space.mmap(&mut alloc, 0x2000, 2 * 4096, 2), Ok(8192));
    assert_eq!(space.mmap(&mut alloc, 0x4000, 4096, 3), Ok(4096));
    assert_eq!(space.mmap(&mut alloc, 0x6000, 4096, 4), Ok(4096));
    assert_eq!(alloc.free_count(), 11);
    assert_eq!(space.munmap(&mut alloc, 0x2000, 4 * 4096), Err(MemError::NotMapped));
    assert_eq!(space.munmap(&mut alloc, 0x2000, 3 * 4096), Ok(()));
    assert_eq!(
        areas(&space),
        vec![(1, 1, user(true, false, false)), (6, 1, user(false, false, true))]
    );
    assert_eq!(alloc.free_count(), 14);
    for vpn in 2..5 {
        assert_eq!(space.translate(vpn), None);
    }
    assert!(space.translate(1).is_some());
    assert!(space.translate(6).is_some());
}

#[test]
fn sbrk_grows_and_shrinks_the_heap() {
    let (mut space, mut alloc) = setup(8);
    assert_eq!(space.sbrk(&mut alloc, 4096), Some(HEAP));
    assert_eq!(space.brk(), HEAP + 4096);
    assert_eq!(space.heap_pages(), 1);
    assert_eq!(alloc.free_count(), 7);
    let (frame, perms) = space.translate(HEAP / PAGE_SIZE).unwrap();
    assert_eq!(perms, user(true, true, false));
    assert!(alloc.is_allocated(frame));
    assert_eq!(space.sbrk(&mut alloc, -4096), Some(HEAP + 4096));
    assert_eq!(space.brk(), HEAP);
    assert_eq!(space.heap_pages(), 0);
    assert_eq!(alloc.free_count(), 8);
    assert_eq!(space.translate(HEAP / PAGE_SIZE), None);
    assert!(!alloc.is_allocated(frame));
}

#[test]
fn sbrk_moves_by_bytes_and_maps_by_pages() {
    let (mut space, mut alloc) = setup(8);
    assert_eq!(space.sbrk(&mut alloc, 1), Some(HEAP));
    assert_eq!(space.heap_pages(), 1);
    assert_eq!(space.sbrk(&mut alloc, 4095), Some(HEAP + 1));
    assert_eq!(space.heap_pages(), 1);
    assert_eq!(space.sbrk(&mut alloc, 1), Some(HEAP + 4096));
    assert_eq!(space.heap_pages(), 2);
    assert_eq!(alloc.free_count(), 6);
    assert_eq!(space.sbrk(&mut alloc, 0), Some(HEAP + 4097));
    assert_eq!(space.sbrk(&mut alloc, -1), Some(HEAP + 4097));
    assert_eq!(space.heap_pages(), 1);
    assert_eq!(alloc.free_count(), 7);
    assert_eq!(space.sbrk(&mut alloc, -4095), Some(HEAP + 4096));
    assert_eq!(space.heap_pages(), 1);
    assert_eq!(space.sbrk(&mut alloc, -1), Some(HEAP + 1));
    assert_eq!(space.heap_pages(), 0);
    assert_eq!(space.brk(), HEAP);
    assert_eq!(alloc.free_count(), 8);
}

#[test]
fn sbrk_below_the_heap_base_is_refused() {
    let (mut space, mut alloc) = setup(8);
    assert_eq!(space.sbrk(&mut alloc, -1), None);
    assert_eq!(space.sbrk(&mut alloc, 100), Some(HEAP));
    assert_eq!(space.sbrk(&mut alloc, -101), None);
    assert_eq!(space.sbrk(&mut alloc, isize::MIN), None);
    assert_eq!(space.brk(), HEAP + 100);
    assert_eq!(space.heap_pages(), 1);
    assert_eq!(alloc.free_count(), 7);
    assert_eq!(space.sbrk(&mut alloc, -100), Some(HEAP + 100));
    assert_eq!(space.brk(), HEAP);
}

#[test]
fn sbrk_without_enough_frames_is_refused() {
    let (mut space, mut alloc) = setup(2);
    assert_eq!(space.sbrk(&mut alloc, 3 * 4096), None);
    assert_eq!(space.brk(), HEAP);
    assert_eq!(space.heap_pages(), 0);
    assert_eq!(alloc.free_count(), 2);
    assert_eq!(space.translate(HEAP / PAGE_SIZE), None);
    assert_eq!(space.sbrk(&mut alloc, isize::MAX), None);
    assert_eq!(space.sbrk(&mut alloc, 2 * 4096), Some(HEAP));
    assert_eq!(space.sbrk(&mut alloc, 1), None);
    assert_eq!(space.brk(), HEAP + 2 * 4096);
}

#[test]
fn sbrk_into_a_mapped_area_is_refused() {
    let (mut space, mut alloc) = setup(8);
    assert_eq!(space.mmap(&mut alloc, HEAP + 2 * 4096, 4096, 3), Ok(4096));
    assert_eq!(space.sbrk(&mut alloc, 2 * 4096), Some(HEAP));
    assert_eq!(space.sbrk(&mut alloc, 1), None);
    assert_eq!(space.brk(), HEAP + 2 * 4096);
    assert_eq!(space.heap_pages(), 2);
    assert_eq!(alloc.free_count(), 5);
    assert_eq!(space.munmap(&mut alloc, HEAP + 2 * 4096, 4096), Ok(()));
    assert_eq!(space.sbrk(&mut alloc, 1), Some(HEAP + 2 * 4096));
}

#[test]
fn heap_pages_are_no_mapped_area() {
    let (mut space, mut alloc) = setup(8);
    assert_eq!(space.sbrk(&mut alloc, 4096), Some(HEAP));
    assert_eq!(space.mmap(&mut alloc, HEAP, 4096, 3), Err(MemError::Overlap));
    assert_eq!(space.munmap(&mut alloc, HEAP, 4096), Err(MemError::NotMapped));
    assert_eq!(space.heap_pages(), 1);
    assert_eq!(space.area_count(), 0);
    assert!(space.translate(HEAP / PAGE_SIZE).is_some());
    assert_eq!(space.mmap(&mut alloc, HEAP + 4096, 4096, 3), Ok(4096));
}

#[test]
fn empty_heap_leaves_its_first_page_to_mmap() {
    let (mut space, mut alloc) = setup(8);
    assert_eq!(space.mmap(&mut alloc, HEAP, 4096, 3), Ok(4096));
    assert_eq!(space.sbrk(&mut alloc, 1), None);
    assert_eq!(space.sbrk(&mut alloc, 0), Some(HEAP));
    assert_eq!(space.munmap(&mut alloc, HEAP, 4096), Ok(()));
    assert_eq!(space.sbrk(&mut alloc, 1), Some(HEAP));
}

#[test]
fn destroy_releases_every_frame() {
    let (mut space, mut alloc) = setup(8);
    let other = alloc.allocate().unwrap();
    assert_eq!(space.mmap(&mut alloc, 0x1000, 2 * 4096, 3), Ok(8192));
    assert_eq!(space.mmap(&mut alloc, 0x7000, 4096, 1), Ok(4096));
    assert_eq!(space.sbrk(&mut alloc, 2 * 4096), Some(HEAP));
    assert_eq!(alloc.free_count(), 2);
    space.destroy(&mut alloc);
    assert_eq!(alloc.free_count(), 7);
    assert!(alloc.is_allocated(other));
}

#[test]
fn two_spaces_never_share_a_frame() {
    let mut alloc = FrameAllocator::new(4).unwrap();
    let (mut a, _) = setup(0);
    let (mut b, _) = setup(0);
    assert_eq!(a.mmap(&mut alloc, 0x1000, 2 * 4096, 3), Ok(8192));
    assert_eq!(b.mmap(&mut alloc, 0x1000, 2 * 4096, 3), Ok(8192));
    let mut frames = vec![];
    for space in [&a, &b] {
        for vpn in 1..3 {
            let frame = space.translate(vpn).unwrap().0;
            assert!(!frames.contains(&frame));
            frames.push(frame);
        }
    }
    assert_eq!(a.mmap(&mut alloc, 0x5000, 1, 3), Err(MemError::OutOfMemory));
}

#[test]
fn space_is_backed_by_the_allocator_that_it_maps_from() {
    let (mut space, mut alloc) = setup(8);
    assert!(space.is_backed_by(&alloc));
    assert_eq!(space.mmap(&mut alloc, 0x1000, 2 * 4096, 3), Ok(8192));
    assert_eq!(space.sbrk(&mut alloc, 1), Some(HEAP));
    assert!(space.is_backed_by(&alloc));
    let other = FrameAllocator::new(8).unwrap();
    assert!(!space.is_backed_by(&other));
    assert_eq!(space.munmap(&mut alloc, 0x1000, 2 * 4096), Ok(()));
    assert!(space.is_backed_by(&alloc));
    assert!(!space.is_backed_by(&other));
    assert_eq!(space.sbrk(&mut alloc, -1), Some(HEAP + 1));
    assert!(space.is_backed_by(&other));
}
