use user_mm::address_space::AddressSpace;
use user_mm::config::MAX_SYSCALL_NUM;
use user_mm::frame_allocator::FrameAllocator;
use user_mm::layout::{push_le32, push_le64, push_zeros};
use user_mm::syscall::memory::{sys_mmap, sys_munmap, sys_sbrk};
use user_mm::syscall::process::{
    sys_exit, sys_get_time, sys_task_info, sys_yield, TaskInfo, TaskStatus, TimeVal,
    TASK_INFO_BYTES, TIME_VAL_BYTES,
};
use user_mm::user_copy::read_user;

const HEAP: usize = 0x10_0000;

fn setup(frames: usize) -> (AddressSpace, FrameAllocator) {
    let space = match AddressSpace::new(HEAP) {
        Ok(s) => s,
        Err(e) => panic!("refused: {:?}", e),
    };
    (space, FrameAllocator::new(frames).unwrap())
}

#[test]
fn little_endian_layout() {
    let mut out = vec![0xEEu8];
    push_le64(&mut out, 0x0102_0304_0506_0708);
    assert_eq!(out, vec![0xEE, 8, 7, 6, 5, 4, 3, 2, 1]);
    let mut out = vec![];
    push_le32(&mut out, 0xA1B2_C3D4);
    assert_eq!(out, vec![0xD4, 0xC3, 0xB2, 0xA1]);
    push_zeros(&mut out, 3);
    assert_eq!(out, vec![0xD4, 0xC3, 0xB2, 0xA1, 0, 0, 0]);
    push_le64(&mut out, u64::MAX);
    assert_eq!(out.len(), 15);
    assert!(out[7..].iter().all(|b| *b == 0xFF));
    let mut out = vec![];
    push_le64(&mut out, 1);
    assert_eq!(out, vec![1, 0, 0, 0, 0, 0, 0, 0]);
    push_zeros(&mut out, 0);
    assert_eq!(out.len(), 8);
}

#[test]
fn time_val_from_micros() {
    assert_eq!(TimeVal::from_micros(0), TimeVal { sec: 0, usec: 0 });
    assert_eq!(TimeVal::from_micros(999_999), TimeVal { sec: 0, usec: 999_999 });
    assert_eq!(TimeVal::from_micros(1_000_000), TimeVal { sec: 1, usec: 0 });
    assert_eq!(TimeVal::from_micros(3_000_042), TimeVal { sec: 3, usec: 42 });
    assert_eq!(
        TimeVal::from_micros(usize::MAX),
        TimeVal { sec: usize::MAX / 1_000_000, usec: usize::MAX % 1_000_000 }
    );
}

#[test]
fn time_val_bytes() {
    let t = TimeVal { sec: 0x0102, usec: 0x0A0B0C };
    let bytes = t.to_bytes();
    assert_eq!(bytes.len(), TIME_VAL_BYTES);
    assert_eq!(bytes, vec![2, 1, 0, 0, 0, 0, 0, 0, 0x0C, 0x0B, 0x0A, 0, 0, 0, 0, 0]);
}

#[test]
fn task_status_codes() {
    assert_eq!(TaskStatus::UnInit.code(), 0);
    assert_eq!(TaskStatus::Ready.code(), 1);
    assert_eq!(TaskStatus::Running.code(), 2);
    assert_eq!(TaskStatus::Exited.code(), 3);
}

#[test]
fn zero_init_is_ready_with_no_calls_and_no_time() {
    let info = TaskInfo::zero_init();
    assert_eq!(info.status(), TaskStatus::Ready);
    assert_eq!(info.time(), 0);
    for id in 0..MAX_SYSCALL_NUM {
        assert_eq!(info.syscall_count(id), Some(0));
    }
    assert_eq!(info.syscall_count(MAX_SYSCALL_NUM), None);
    let mut expected = vec![0u8; TASK_INFO_BYTES];
    expected[0] = 1;
    assert_eq!(info.to_bytes(), expected);
}

#[test]
fn task_info_bytes() {
    let mut counts = [0u32; MAX_SYSCALL_NUM];
    counts[0] = 1;
    counts[64] = 0x0102_0304;
    counts[499] = u32::MAX;
    let info = TaskInfo::new(TaskStatus::Running, counts, 0x1122_3344);
    assert_eq!(info.status(), TaskStatus::Running);
    assert_eq!(info.syscall_count(64), Some(0x0102_0304));
    assert_eq!(info.syscall_count(499), Some(u32::MAX));
    assert_eq!(info.syscall_count(500), None);
    assert_eq!(info.time(), 0x1122_3344);
    let bytes = info.to_bytes();
    assert_eq!(bytes.len(), 2016);
    let mut expected = vec![0u8; 2016];
    expected[0] = 2;
    expected[4] = 1;
    expected[4 + 64 * 4..4 + 65 * 4].copy_from_slice(&[4, 3, 2, 1]);
    expected[4 + 499 * 4..4 + 500 * 4].copy_from_slice(&[0xFF; 4]);
    expected[2008..2012].copy_from_slice(&[0x44, 0x33, 0x22, 0x11]);
    assert_eq!(bytes, expected);
}

#[test]
fn sys_yield_returns_zero() {
    assert_eq!(sys_yield(), 0);
}

#[test]
fn sys_exit_hands_back_the_code_and_the_frames() {
    let (mut space, mut alloc) = setup(8);
    assert_eq!(sys_mmap(&mut space, &mut alloc, 0x1000, 3 * 4096, 3), 0);
    assert_eq!(sys_sbrk(&mut space, &mut alloc, 10), HEAP as isize);
    assert_eq!(alloc.free_count(), 4);
    assert_eq!(sys_exit(space, &mut alloc, -7), -7);
    assert_eq!(alloc.free_count(), 8);
    let (space, _) = setup(0);
    assert_eq!(sys_exit(space, &mut alloc, 0), 0);
    assert_eq!(alloc.free_count(), 8);
}

#[test]
fn sys_get_time_writes_the_record() {
    let (mut space, mut alloc) = setup(4);
    assert_eq!(sys_mmap(&mut space, &mut alloc, 0x1000, 4096, 3), 0);
    assert_eq!(sys_get_time(&space, &mut alloc, 3_000_042, 0x1100, 0), 0);
    assert_eq!(
        read_user(&space, &alloc, 0x1100, 16),
        Ok(vec![3, 0, 0, 0, 0, 0, 0, 0, 42, 0, 0, 0, 0, 0, 0, 0])
    );
    assert_eq!(read_user(&space, &alloc, 0x10ff, 1), Ok(vec![0]));
    assert_eq!(read_user(&space, &alloc, 0x1110, 1), Ok(vec![0]));
}

#[test]
fn sys_get_time_across_a_page_boundary() {
    let (mut space, mut alloc) = setup(4);
    assert_eq!(sys_mmap(&mut space, &mut alloc, 0x1000, 4096, 3), 0);
    assert_eq!(sys_mmap(&mut space, &mut alloc, 0x8000, 4096, 3), 0);
    assert_eq!(sys_mmap(&mut space, &mut alloc, 0x2000, 4096, 3), 0);
    let ts = 0x2000 - 3;
    assert_eq!(sys_get_time(&space, &mut alloc, 0x0102_0304 * 1_000_000 + 0x0A0B0C, ts, 0), 0);
    assert_eq!(
        read_user(&space, &alloc, ts, 16),
        Ok(vec![4, 3, 2, 1, 0, 0, 0, 0, 0x0C, 0x0B, 0x0A, 0, 0, 0, 0, 0])
    );
}

#[test]
fn sys_get_time_into_unmapped_memory_fails_and_writes_nothing() {
    let (mut space, mut alloc) = setup(4);
    assert_eq!(sys_get_time(&space, &mut alloc, 5, 0x1000, 0), -1);
    assert_eq!(sys_mmap(&mut space, &mut alloc, 0x1000, 4096, 3), 0);
    assert_eq!(sys_get_time(&space, &mut alloc, 0x0101_0101_0101, 0x2000 - 8, 0), -1);
    assert_eq!(read_user(&space, &alloc, 0x1000, 4096), Ok(vec![0u8; 4096]));
    assert_eq!(sys_mmap(&mut space, &mut alloc, 0x5000, 4096, 1), 0);
    assert_eq!(sys_get_time(&space, &mut alloc, 5, 0x5000, 0), -1);
}

#[test]
fn sys_task_info_writes_the_record() {
    let (mut space, mut alloc) = setup(4);
    assert_eq!(sys_mmap(&mut space, &mut alloc, 0x1000, 2 * 4096, 3), 0);
    let mut counts = [0u32; MAX_SYSCALL_NUM];
    counts[169] = 5;
    counts[410] = 1;
    let info = TaskInfo::new(TaskStatus::Running, counts, 1234);
    let ti = 0x1000 + 4096 - 1000;
    assert_eq!(sys_task_info(&space, &mut alloc, &info, ti), 0);
    assert_eq!(read_user(&space, &alloc, ti, TASK_INFO_BYTES), Ok(info.to_bytes()));
    assert_eq!(read_user(&space, &alloc, ti, 1), Ok(vec![2]));
    assert_eq!(read_user(&space, &alloc, ti + 4 + 4 * 169, 4), Ok(vec![5, 0, 0, 0]));
    assert_eq!(read_user(&space, &alloc, ti + 2008, 8), Ok(vec![0xD2, 4, 0, 0, 0, 0, 0, 0]));
}

#[test]
fn sys_task_info_into_partly_mapped_memory_fails_and_writes_nothing() {
    let (mut space, mut alloc) = setup(4);
    assert_eq!(sys_mmap(&mut space, &mut alloc, 0x1000, 4096, 3), 0);
    let info = TaskInfo::new(TaskStatus::Exited, [7; MAX_SYSCALL_NUM], 9);
    assert_eq!(sys_task_info(&space, &mut alloc, &info, 0x1000 + 4096 - 2015), -1);
    assert_eq!(read_user(&space, &alloc, 0x1000, 4096), Ok(vec![0u8; 4096]));
    assert_eq!(sys_task_info(&space, &mut alloc, &info, 0x1000 + 4096 - 2016), 0);
    assert_eq!(read_user(&space, &alloc, 0x1000 + 4096 - 2016, 2016), Ok(info.to_bytes()));
}

#[test]
fn sys_mmap_and_sys_munmap_return_codes() {
    let (mut space, mut alloc) = setup(2);
    assert_eq!(sys_mmap(&mut space, &mut alloc, 0x1001, 4096, 3), -1);
    assert_eq!(sys_mmap(&mut space, &mut alloc, 0x1000, 4096, 0), -1);
    assert_eq!(sys_mmap(&mut space, &mut alloc, 0x1000, 4096, 8), -1);
    assert_eq!(sys_mmap(&mut space, &mut alloc, 0x1000, 3 * 4096, 3), -1);
    assert_eq!(space.area_count(), 0);
    assert_eq!(alloc.free_count(), 2);
    assert_eq!(sys_mmap(&mut space, &mut alloc, 0x1000, 4096, 3), 0);
    assert_eq!(sys_mmap(&mut space, &mut alloc, 0x1000, 4096, 3), -1);
    assert_eq!(space.area_count(), 1);
    assert_eq!(alloc.free_count(), 1);
    assert_eq!(sys_munmap(&mut space, &mut alloc, 0x1001, 4096), -1);
    assert_eq!(sys_munmap(&mut space, &mut alloc, 0x2000, 4096), -1);
    assert_eq!(sys_munmap(&mut space, &mut alloc, 0x1000, 8192), -1);
    assert_eq!(space.area_count(), 1);
    assert_eq!(sys_munmap(&mut space, &mut alloc, 0x1000, 4096), 0);
    assert_eq!(sys_munmap(&mut space, &mut alloc, 0x1000, 4096), -1);
    assert_eq!(space.area_count(), 0);
    assert_eq!(alloc.free_count(), 2);
}

#[test]
fn sys_sbrk_returns_the_previous_break() {
    let (mut space, mut alloc) = setup(2);
    assert_eq!(sys_sbrk(&mut space, &mut alloc, 0), HEAP as isize);
    assert_eq!(sys_sbrk(&mut space, &mut alloc, 4096), HEAP as isize);
    assert_eq!(sys_sbrk(&mut space, &mut alloc, -4096), (HEAP + 4096) as isize);
    assert_eq!(sys_sbrk(&mut space, &mut alloc, 0), HEAP as isize);
    assert_eq!(alloc.free_count(), 2);
    assert_eq!(sys_sbrk(&mut space, &mut alloc, -1), -1);
    assert_eq!(sys_sbrk(&mut space, &mut alloc, 3 * 4096), -1);
    assert_eq!(space.brk(), HEAP);
    assert_eq!(alloc.free_count(), 2);
}

#[test]
fn sys_sbrk_refuses_a_break_that_it_could_not_return() {
    let base = (isize::MAX as usize) + 1;
    let mut space = match AddressSpace::new(base) {
        Ok(s) => s,
        Err(e) => panic!("refused: {:?}", e),
    };
    let mut alloc = FrameAllocator::new(2).unwrap();
    assert_eq!(sys_sbrk(&mut space, &mut alloc, 16), -1);
    assert_eq!(space.brk(), base);
    assert_eq!(alloc.free_count(), 2);
    assert_eq!(space.sbrk(&mut alloc, 16), Some(base));
    assert_eq!(space.brk(), base + 16);
}
