//! Process management syscalls, and the records that they hand to user
//! code.

use vstd::prelude::*;
use crate::address_space::AddressSpace;
use crate::config::MAX_SYSCALL_NUM;
use crate::error::MemError;
use crate::frame_allocator::FrameAllocator;
use crate::layout::{le_bytes32, le_bytes64, push_le32, push_le64, push_zeros, zero_bytes};
use crate::user_copy::{write_user, write_user_post};

verus! {

/// Microseconds in a second.
pub const MICROS_PER_SEC: usize = 1_000_000;

/// Bytes that a `TimeVal` takes in user memory.
pub const TIME_VAL_BYTES: usize = 16;

/// Bytes that a `TaskInfo` takes in user memory.
pub const TASK_INFO_BYTES: usize = 2016;

/// A point in time: seconds, and microseconds within the second.
#[derive(Clone, Copy, Debug, PartialEq, Eq, Structural)]
pub struct TimeVal {
    /// sec
    pub sec: usize,
    /// usec
    pub usec: usize,
}

impl TimeVal {
    /// The record as it lies in user memory: `sec`, then `usec`, each as
    /// eight bytes, least significant first.
    pub open spec fn bytes(self) -> Seq<u8> {
        le_bytes64(self.sec as u64) + le_bytes64(self.usec as u64)
    }

    /// The point in time `micros` microseconds after the epoch.
    pub open spec fn of_micros(micros: usize) -> TimeVal {
        TimeVal {
            sec: (micros / MICROS_PER_SEC) as usize,
            usec: (micros % MICROS_PER_SEC) as usize,
        }
    }

    /// The point in time `micros` microseconds after the epoch.
    pub fn from_micros(micros: usize) -> (t: TimeVal)
        ensures
            t == Self::of_micros(micros),
    {
        TimeVal { sec: micros / MICROS_PER_SEC, usec: micros % MICROS_PER_SEC }
    }

    /// Lays the record out as bytes.
    pub fn to_bytes(&self) -> (out: Vec<u8>)
        ensures
            out@ == self.bytes(),
            out@.len() == TIME_VAL_BYTES,
    {
        let mut out: Vec<u8> = Vec::new();
        push_le64(&mut out, self.sec as u64);
        push_le64(&mut out, self.usec as u64);
        out
    }
}

/// Where a task is in its life cycle.
#[derive(Clone, Copy, Debug, PartialEq, Eq, Structural)]
pub enum TaskStatus {
    UnInit,
    Ready,
    Running,
    Exited,
}

impl TaskStatus {
    /// The byte that stands for the status in user memory.
    pub open spec fn spec_code(self) -> u8 {
        match self {
            TaskStatus::UnInit => 0,
            TaskStatus::Ready => 1,
            TaskStatus::Running => 2,
            TaskStatus::Exited => 3,
        }
    }

    /// The byte that stands for the status in user memory.
    pub fn code(&self) -> (c: u8)
        ensures
            c == self.spec_code(),
    {
        match self {
            TaskStatus::UnInit => 0,
            TaskStatus::Ready => 1,
            TaskStatus::Running => 2,
            TaskStatus::Exited => 3,
        }
    }
}

/// The bytes of the counters `counts`, one after the other, each as four
/// bytes, least significant first.
pub open spec fn counter_bytes(counts: Seq<u32>) -> Seq<u8> {
    Seq::new(4 * counts.len(), |i: int| le_bytes32(counts[i / 4])[i % 4])
}

/// What a `TaskInfo` holds.
pub struct TaskInfoView {
    pub status: TaskStatus,
    pub syscall_times: Seq<u32>,
    pub time: usize,
}

impl TaskInfoView {
    /// The record as it lies in user memory, in the layout that C gives the
    /// three fields on a 64-bit machine: the status byte and three bytes of
    /// padding; the counters; four bytes of padding; the time as eight
    /// bytes. Integers lie least significant byte first, padding is zero.
    pub open spec fn bytes(self) -> Seq<u8> {
        seq![self.status.spec_code()] + zero_bytes(3) + counter_bytes(self.syscall_times)
            + zero_bytes(4) + le_bytes64(self.time as u64)
    }
}

/// Task information
#[derive(Copy, Clone, Debug)]
pub struct TaskInfo {
    /// Task status in its life cycle
    status: TaskStatus,
    /// The numbers of syscall called by task
    syscall_times: [u32; MAX_SYSCALL_NUM],
    /// Total running time of task
    time: usize,
}

impl View for TaskInfo {
    type V = TaskInfoView;

    closed spec fn view(&self) -> TaskInfoView {
        TaskInfoView {
            status: self.status,
            syscall_times: self.syscall_times@,
            time: self.time,
        }
    }
}

impl TaskInfo {
    /// init new TaskInfo
    pub fn zero_init() -> (info: Self)
        ensures
            info@.status == TaskStatus::Ready,
            info@.syscall_times == Seq::new(MAX_SYSCALL_NUM as nat, |i: int| 0u32),
            info@.time == 0,
    {
        let info = Self { status: TaskStatus::Ready, syscall_times: [0; MAX_SYSCALL_NUM], time: 0 };
        proof {
            assert(info@.syscall_times =~= Seq::new(MAX_SYSCALL_NUM as nat, |i: int| 0u32));
        }
        info
    }

    /// The record of a task in the state `status` that has made the
    /// syscall with number `i` `syscall_times[i]` times and has run for
    /// `time`.
    pub fn new(status: TaskStatus, syscall_times: [u32; MAX_SYSCALL_NUM], time: usize) -> (info:
        Self)
        ensures
            info@ == (TaskInfoView { status, syscall_times: syscall_times@, time }),
    {
        Self { status, syscall_times, time }
    }

    /// Task status in its life cycle
    pub fn status(&self) -> (s: TaskStatus)
        ensures
            s == self@.status,
    {
        self.status
    }

    /// How often the task has made the syscall with number `id`, if there
    /// is such a syscall.
    pub fn syscall_count(&self, id: usize) -> (n: Option<u32>)
        ensures
            self@.syscall_times.len() == MAX_SYSCALL_NUM,
            n == (if id < MAX_SYSCALL_NUM {
                Some(self@.syscall_times[id as int])
            } else {
                None
            }),
    {
        if id < MAX_SYSCALL_NUM {
            Some(self.syscall_times[id])
        } else {
            None
        }
    }

    /// Total running time of task
    pub fn time(&self) -> (t: usize)
        ensures
            t == self@.time,
    {
        self.time
    }

    /// Lays the record out as bytes.
    pub fn to_bytes(&self) -> (out: Vec<u8>)
        ensures
            out@ == self@.bytes(),
            out@.len() == TASK_INFO_BYTES,
    {
        let mut out: Vec<u8> = Vec::new();
        out.push(self.status.code());
        push_zeros(&mut out, 3);
        let ghost head = out@;
        let ghost counts = self@.syscall_times;
        let mut i: usize = 0;
        proof {
            assert(counter_bytes(counts.take(0)) =~= Seq::<u8>::empty());
            assert(out@ =~= head + counter_bytes(counts.take(0)));
        }
        while i < MAX_SYSCALL_NUM
            invariant
                i <= MAX_SYSCALL_NUM,
                counts == self@.syscall_times,
                counts.len() == MAX_SYSCALL_NUM,
                out@ == head + counter_bytes(counts.take(i as int)),
            decreases MAX_SYSCALL_NUM - i,
        {
            let ghost before = out@;
            push_le32(&mut out, self.syscall_times[i]);
            proof {
                let a = counter_bytes(counts.take(i as int));
                let b = counter_bytes(counts.take(i + 1));
                assert(b =~= a + le_bytes32(counts[i as int])) by {
                    assert forall|k: int| 0 <= k < b.len() implies b[k] == (a + le_bytes32(
                        counts[i as int],
                    ))[k] by {
                        if k < 4 * i {
                            assert(counts.take(i + 1)[k / 4] == counts.take(i as int)[k / 4]);
                        } else {
                            assert(k / 4 == i);
                        }
                    }
                }
                assert(out@ =~= head + b);
            }
            i = i + 1;
        }
        proof {
            assert(counts.take(MAX_SYSCALL_NUM as int) =~= counts);
        }
        push_zeros(&mut out, 4);
        push_le64(&mut out, self.time as u64);
        out
    }
}

/// task exits and submit an exit code
///
/// The task's address space is torn down: every frame that it used goes
/// back to `alloc`. The exit code is handed back for the scheduler, which
/// then marks the task as exited and runs the next one.
pub fn sys_exit(space: AddressSpace, alloc: &mut FrameAllocator, exit_code: i32) -> (code: i32)
    requires
        space.wf(),
        old(alloc).wf(),
    ensures
        code == exit_code,
        final(alloc).wf(),
        final(alloc)@.capacity == old(alloc)@.capacity,
        final(alloc)@.frames == old(alloc)@.frames.remove_keys(space@.frames()),
{
    space.destroy(alloc);
    exit_code
}

/// current task gives up resources for other tasks
///
/// Computes what the syscall returns to the task once it runs again; the
/// scheduler suspends the task and runs the next one.
pub fn sys_yield() -> (r: isize)
    ensures
        r == 0,
{
    0
}

/// get time with second and microsecond
///
/// Writes the time `now_us` microseconds after the epoch, as a `TimeVal`,
/// into the task's memory at the user address `ts`. Returns 0, or -1 with
/// nothing written if user code may not write all of the record's bytes.
pub fn sys_get_time(
    space: &AddressSpace,
    alloc: &mut FrameAllocator,
    now_us: usize,
    ts: usize,
    _tz: usize,
) -> (r: isize)
    requires
        space.wf(),
        old(alloc).wf(),
        space.backed_by(old(alloc)),
    ensures
        final(alloc).wf(),
        space.backed_by(final(alloc)),
        r == 0 || r == -1,
        write_user_post(
            space@,
            old(alloc)@,
            final(alloc)@,
            ts,
            TimeVal::of_micros(now_us).bytes(),
            if r == 0 {
                Ok::<(), MemError>(())
            } else {
                Err::<(), MemError>(MemError::NotMapped)
            },
        ),
{
    let record = TimeVal::from_micros(now_us).to_bytes();
    match write_user(space, alloc, ts, record.as_slice()) {
        Ok(_) => 0,
        Err(_) => -1,
    }
}

/// Writes the task information `info` into the task's memory at the user
/// address `ti`. Returns 0, or -1 with nothing written if user code may not
/// write all of the record's bytes.
pub fn sys_task_info(space: &AddressSpace, alloc: &mut FrameAllocator, info: &TaskInfo, ti: usize)
    -> (r: isize)
    requires
        space.wf(),
        old(alloc).wf(),
        space.backed_by(old(alloc)),
    ensures
        final(alloc).wf(),
        space.backed_by(final(alloc)),
        r == 0 || r == -1,
        write_user_post(
            space@,
            old(alloc)@,
            final(alloc)@,
            ti,
            info@.bytes(),
            if r == 0 {
                Ok::<(), MemError>(())
            } else {
                Err::<(), MemError>(MemError::NotMapped)
            },
        ),
{
    let record = info.to_bytes();
    match write_user(space, alloc, ti, record.as_slice()) {
        Ok(_) => 0,
        Err(_) => -1,
    }
}

} // verus!
