use user_mm::address_space::AddressSpace;
use user_mm::error::MemError;
use user_mm::frame_allocator::FrameAllocator;
use user_mm::permissions::{PERM_EXEC, PERM_READ, PERM_WRITE};
use user_mm::user_copy::{read_user, write_user};

const RW: usize = PERM_READ | PERM_WRITE;

fn setup(frames: usize) -> (AddressSpace, FrameAllocator) {
    let space = match AddressSpace::new(0x10_0000) {
        Ok(s) => s,
        Err(e) => panic!("refused: {:?}", e),
    };
    (space, FrameAllocator::new(frames).unwrap())
}

fn pattern(len: usize) -> Vec<u8> {
    (0..len).map(|i| (i * 7 + 3) as u8).collect()
}

#[test]
fn fresh_mapping_reads_as_zero() {
    let (mut space, mut alloc) = setup(4);
    assert_eq!(space.mmap(&mut alloc, 0x1000, 8192, RW), Ok(8192));
    assert_eq!(read_user(&space, &alloc, 0x1000, 8192), Ok(vec![0u8; 8192]));
}

#[test]
fn write_then_read_within_a_page() {
    let (mut space, mut alloc) = setup(4);
    assert_eq!(space.mmap(&mut alloc, 0x1000, 4096, RW), Ok(4096));
    let data = pattern(100);
    assert_eq!(write_user(&space, &mut alloc, 0x1010, &data), Ok(()));
    assert_eq!(read_user(&space, &alloc, 0x1010, 100), Ok(data.clone()));
    assert_eq!(read_user(&space, &alloc, 0x100f, 1), Ok(vec![0]));
    assert_eq!(read_user(&space, &alloc, 0x1010 + 100, 1), Ok(vec![0]));
    assert_eq!(read_user(&space, &alloc, 0x1012, 3), Ok(data[2..5].to_vec()));
}

#[test]
fn write_straddling_two_pages_whose_frames_are_apart() {
    let (mut space, mut alloc) = setup(8);
    assert_eq!(space.mmap(&mut alloc, 0x1000, 4096, RW), Ok(4096));
    assert_eq!(space.mmap(&mut alloc, 0x5000, 4096, RW), Ok(4096));
    assert_eq!(space.mmap(&mut alloc, 0x2000, 4096, RW), Ok(4096));
    let low = space.translate(1).unwrap().0;
    let high = space.translate(2).unwrap().0;
    assert!(high != low + 1);
    let data = pattern(16);
    let dest = 0x2000 - 5;
    assert_eq!(write_user(&space, &mut alloc, dest, &data), Ok(()));
    assert_eq!(read_user(&space, &alloc, dest, 16), Ok(data.clone()));
    for i in 0..5 {
        assert_eq!(alloc.read_byte(low, 4096 - 5 + i), data[i]);
    }
    for i in 5..16 {
        assert_eq!(alloc.read_byte(high, i - 5), data[i]);
    }
    assert_eq!(alloc.read_byte(low, 4096 - 6), 0);
    assert_eq!(alloc.read_byte(high, 11), 0);
    assert_eq!(read_user(&space, &alloc, 0x5000, 4096), Ok(vec![0u8; 4096]));
}

#[test]
fn write_spanning_three_pages() {
    let (mut space, mut alloc) = setup(8);
    assert_eq!(space.mmap(&mut alloc, 0x3000, 3 * 4096, RW), Ok(3 * 4096));
    let data = pattern(4096 + 200);
    let dest = 0x4000 - 100;
    assert_eq!(write_user(&space, &mut alloc, dest, &data), Ok(()));
    assert_eq!(read_user(&space, &alloc, dest, data.len()), Ok(data.clone()));
    let mut whole = vec![0u8; 3 * 4096];
    whole[4096 - 100..4096 - 100 + data.len()].copy_from_slice(&data);
    assert_eq!(read_user(&space, &alloc, 0x3000, 3 * 4096), Ok(whole));
}

#[test]
fn write_touching_an_unmapped_page_writes_nothing() {
    let (mut space, mut alloc) = setup(8);
    assert_eq!(space.mmap(&mut alloc, 0x1000, 4096, RW), Ok(4096));
    let data = pattern(16);
    assert_eq!(write_user(&space, &mut alloc, 0x2000 - 5, &data), Err(MemError::NotMapped));
    assert_eq!(read_user(&space, &alloc, 0x1000, 4096), Ok(vec![0u8; 4096]));
    assert_eq!(write_user(&space, &mut alloc, 0x1000 - 1, &data), Err(MemError::NotMapped));
    assert_eq!(read_user(&space, &alloc, 0x1000, 4096), Ok(vec![0u8; 4096]));
    assert_eq!(write_user(&space, &mut alloc, 0x7000, &data), Err(MemError::NotMapped));
    assert_eq!(write_user(&space, &mut alloc, 0x2000 - 16, &data), Ok(()));
    assert_eq!(read_user(&space, &alloc, 0x2000 - 16, 16), Ok(data));
}

#[test]
fn write_with_a_hole_in_the_middle_writes_nothing() {
    let (mut space, mut alloc) = setup(8);
    assert_eq!(space.mmap(&mut alloc, 0x1000, 4096, RW), Ok(4096));
    assert_eq!(space.mmap(&mut alloc, 0x3000, 4096, RW), Ok(4096));
    let data = pattern(2 * 4096 + 2);
    assert_eq!(write_user(&space, &mut alloc, 0x2000 - 1, &data), Err(MemError::NotMapped));
    assert_eq!(read_user(&space, &alloc, 0x1000, 4096), Ok(vec![0u8; 4096]));
    assert_eq!(read_user(&space, &alloc, 0x3000, 4096), Ok(vec![0u8; 4096]));
    assert_eq!(read_user(&space, &alloc, 0x2000 - 1, data.len()), Err(MemError::NotMapped));
}

#[test]
fn copies_respect_the_rights_of_the_pages() {
    let (mut space, mut alloc) = setup(8);
    assert_eq!(space.mmap(&mut alloc, 0x1000, 4096, PERM_READ), Ok(4096));
    assert_eq!(space.mmap(&mut alloc, 0x2000, 4096, PERM_WRITE), Ok(4096));
    assert_eq!(space.mmap(&mut alloc, 0x3000, 4096, PERM_EXEC), Ok(4096));
    let data = pattern(8);
    assert_eq!(write_user(&space, &mut alloc, 0x1000, &data), Err(MemError::NotMapped));
    assert_eq!(read_user(&space, &alloc, 0x1000, 8), Ok(vec![0u8; 8]));
    assert_eq!(write_user(&space, &mut alloc, 0x2000, &data), Ok(()));
    assert_eq!(read_user(&space, &alloc, 0x2000, 8), Err(MemError::NotMapped));
    let frame = space.translate(2).unwrap().0;
    for i in 0..8 {
        assert_eq!(alloc.read_byte(frame, i), data[i]);
    }
    assert_eq!(write_user(&space, &mut alloc, 0x3000, &data), Err(MemError::NotMapped));
    assert_eq!(read_user(&space, &alloc, 0x3000, 8), Err(MemError::NotMapped));
    assert_eq!(write_user(&space, &mut alloc, 0x2000 - 4, &data), Err(MemError::NotMapped));
    assert_eq!(read_user(&space, &alloc, 0x2000 - 4, 8), Err(MemError::NotMapped));
}

#[test]
fn empty_copies_always_succeed() {
    let (space, mut alloc) = setup(1);
    assert_eq!(write_user(&space, &mut alloc, 0x1234, &[]), Ok(()));
    assert_eq!(read_user(&space, &alloc, 0x1234, 0), Ok(vec![]));
    assert_eq!(write_user(&space, &mut alloc, usize::MAX, &[]), Ok(()));
    assert_eq!(read_user(&space, &alloc, usize::MAX, 0), Ok(vec![]));
}

#[test]
fn copies_past_the_last_address_are_refused() {
    let (mut space, mut alloc) = setup(2);
    let top = usize::MAX - 4095;
    assert_eq!(space.mmap(&mut alloc, top, 4096, RW), Ok(4096));
    assert_eq!(write_user(&space, &mut alloc, usize::MAX, &[9]), Ok(()));
    assert_eq!(read_user(&space, &alloc, usize::MAX, 1), Ok(vec![9]));
    assert_eq!(write_user(&space, &mut alloc, usize::MAX, &[1, 2]), Err(MemError::NotMapped));
    assert_eq!(read_user(&space, &alloc, usize::MAX, 2), Err(MemError::NotMapped));
    assert_eq!(read_user(&space, &alloc, usize::MAX, usize::MAX), Err(MemError::NotMapped));
    assert_eq!(read_user(&space, &alloc, usize::MAX, 1), Ok(vec![9]));
}

#[test]
fn heap_memory_can_be_written_and_read() {
    let (mut space, mut alloc) = setup(4);
    assert_eq!(space.sbrk(&mut alloc, 4097), Some(0x10_0000));
    let data = pattern(300);
    assert_eq!(write_user(&space, &mut alloc, 0x10_0000 + 4000, &data), Ok(()));
    assert_eq!(read_user(&space, &alloc, 0x10_0000 + 4000, 300), Ok(data));
    assert_eq!(space.sbrk(&mut alloc, -4097), Some(0x10_0000 + 4097));
    assert_eq!(read_user(&space, &alloc, 0x10_0000, 1), Err(MemError::NotMapped));
}

#[test]
fn remapped_page_does_not_show_old_contents() {
    let (mut space, mut alloc) = setup(1);
    assert_eq!(space.mmap(&mut alloc, 0x1000, 4096, RW), Ok(4096));
    assert_eq!(write_user(&space, &mut alloc, 0x1000, &pattern(4096)), Ok(()));
    assert_eq!(space.munmap(&mut alloc, 0x1000, 4096), Ok(()));
    assert_eq!(space.mmap(&mut alloc, 0x9000, 4096, RW), Ok(4096));
    assert_eq!(read_user(&space, &alloc, 0x9000, 4096), Ok(vec![0u8; 4096]));
}

#[test]
fn writes_in_one_space_do_not_show_in_another() {
    let mut alloc = FrameAllocator::new(4).unwrap();
    let (mut a, _) = setup(0);
    let (mut b, _) = setup(0);
    assert_eq!(a.mmap(&mut alloc, 0x1000, 4096, RW), Ok(4096));
    assert_eq!(b.mmap(&mut alloc, 0x1000, 4096, RW), Ok(4096));
    assert_eq!(write_user(&a, &mut alloc, 0x1000, &[1, 2, 3]), Ok(()));
    assert_eq!(read_user(&b, &alloc, 0x1000, 3), Ok(vec![0, 0, 0]));
    assert_eq!(read_user(&a, &alloc, 0x1000, 3), Ok(vec![1, 2, 3]));
}
