//! Process-management syscalls.
//!
//! Each handler acts for the task that runs on the processor. It counts its
//! own invocation first, whatever comes of the call. Time is passed in as a
//! reading of a monotonic clock. A handler that gives up the processor
//! returns the handoff for the platform to carry out.

use vstd::prelude::*;
use vstd::bytes::{
    lemma_auto_spec_u32_to_from_le_bytes, spec_u32_to_le_bytes, spec_u64_to_le_bytes,
    u32_to_le_bytes, u64_to_le_bytes,
};
use crate::config::{
    MAX_SYSCALL_NUM, PAGE_SIZE, SYSCALL_EXIT, SYSCALL_GET_TIME, SYSCALL_MMAP, SYSCALL_MUNMAP,
    SYSCALL_SBRK, SYSCALL_TASK_INFO, SYSCALL_YIELD,
};
use crate::mm::address::{page_ceil, page_floor};
use crate::mm::memory_set::{is_resized, last_starting_at, MapType};
use crate::mm::page_table::{port_permission, MapPermission};
use crate::task::context::{ContextSlot, Switch};
use crate::task::kernel::{
    area_mapped, area_unmapped, change_program_brk, exit_current_and_run_next,
    lemma_map_then_unmap, suspend_current_and_run_next, Kernel, KernelView,
};
use crate::task::processor::{
    current_task_count_syscall, current_task_info, current_task_mmap, current_task_munmap,
    mmap_refused, munmap_refused,
};
use crate::task::task::{counted, moved_break, TaskStatus};

verus! {

/// Microseconds in a second.
pub const MICROS_PER_SEC: usize = 1_000_000;

/// The size of a [`TimeVal`] in user memory.
pub const TIME_VAL_SIZE: usize = 16;

/// The size of a [`TaskInfo`] in user memory.
pub const TASK_INFO_SIZE: usize = 2016;

/// A time, as seconds and microseconds.
#[derive(Clone, Copy, Debug, PartialEq, Eq, Structural)]
pub struct TimeVal {
    pub sec: usize,
    pub usec: usize,
}

/// What `task_info` reports of a task.
#[derive(Clone, Copy, Debug)]
pub struct TaskInfo {
    /// The task's status in its life cycle.
    pub status: TaskStatus,
    /// How often the task invoked each syscall, by syscall id.
    pub syscall_times: [u32; MAX_SYSCALL_NUM],
    /// Milliseconds since the task's first dispatch.
    pub time: usize,
}

/// The time `us` microseconds, split into seconds and microseconds.
pub open spec fn time_val_of(us: usize) -> TimeVal {
    TimeVal { sec: us / MICROS_PER_SEC, usec: us % MICROS_PER_SEC }
}

/// The milliseconds from `start` to `now`; none where `now` lies before
/// `start`.
pub open spec fn elapsed(now: usize, start: usize) -> usize {
    if now >= start {
        (now - start) as usize
    } else {
        0
    }
}

/// The number that stands for a status in user memory.
pub open spec fn status_code(status: TaskStatus) -> u8 {
    match status {
        TaskStatus::UnInit => 0,
        TaskStatus::Ready => 1,
        TaskStatus::Running => 2,
        TaskStatus::Exited => 3,
    }
}

/// The counters, each as four bytes, least significant byte first.
pub open spec fn counts_bytes(counts: Seq<u32>) -> Seq<u8>
    decreases counts.len(),
{
    if counts.len() == 0 {
        Seq::<u8>::empty()
    } else {
        counts_bytes(counts.drop_last()) + spec_u32_to_le_bytes(counts.last())
    }
}

/// A [`TimeVal`] as it lies in user memory: two fields of eight bytes, the
/// seconds first, each with its least significant byte first.
pub open spec fn time_val_bytes(tv: TimeVal) -> Seq<u8> {
    spec_u64_to_le_bytes(tv.sec as u64) + spec_u64_to_le_bytes(tv.usec as u64)
}

/// A [`TaskInfo`] as it lies in user memory: the status code in one byte and
/// three bytes of padding, the counters of four bytes each, four bytes of
/// padding, and the time in eight bytes; every number with its least
/// significant byte first.
pub open spec fn task_info_bytes(status: TaskStatus, counts: Seq<u32>, time: usize) -> Seq<u8> {
    seq![status_code(status), 0u8, 0u8, 0u8] + counts_bytes(counts) + seq![0u8, 0u8, 0u8, 0u8]
        + spec_u64_to_le_bytes(time as u64)
}

/// The counters take four bytes each.
pub proof fn lemma_counts_bytes_len(counts: Seq<u32>)
    ensures
        counts_bytes(counts).len() == 4 * counts.len(),
    decreases counts.len(),
{
    lemma_auto_spec_u32_to_from_le_bytes();
    if counts.len() > 0 {
        lemma_counts_bytes_len(counts.drop_last());
    }
}

/// Seconds and microseconds together are the reading they were split from,
/// the microseconds stay below a second, and a later reading never gives an
/// earlier time.
pub proof fn lemma_time_val_monotonic(us1: usize, us2: usize)
    requires
        us1 <= us2,
    ensures
        time_val_of(us1).sec * MICROS_PER_SEC + time_val_of(us1).usec == us1,
        time_val_of(us1).usec < MICROS_PER_SEC,
        time_val_of(us1).sec < time_val_of(us2).sec || (time_val_of(us1).sec == time_val_of(
            us2,
        ).sec && time_val_of(us1).usec <= time_val_of(us2).usec),
{
}

/// One more invocation raises the counter of that syscall by exactly one,
/// unless it has reached the largest value, and leaves the others alone.
pub proof fn lemma_counted(counts: Seq<u32>, id: int)
    requires
        0 <= id < counts.len(),
    ensures
        counted(counts, id).len() == counts.len(),
        counts[id] < u32::MAX ==> counted(counts, id)[id] == counts[id] + 1,
        counts[id] == u32::MAX ==> counted(counts, id)[id] == u32::MAX,
        forall|other: int|
            0 <= other < counts.len() && other != id ==> counted(counts, id)[other]
                == counts[other],
{
}

impl TimeVal {
    /// Splits a reading of `us` microseconds into seconds and microseconds.
    pub fn from_us(us: usize) -> (tv: TimeVal)
        ensures
            tv == time_val_of(us),
    {
        TimeVal { sec: us / MICROS_PER_SEC, usec: us % MICROS_PER_SEC }
    }

    /// The bytes of the value as it lies in user memory.
    pub fn to_bytes(&self) -> (bytes: Vec<u8>)
        ensures
            bytes@ == time_val_bytes(*self),
            bytes@.len() == TIME_VAL_SIZE,
    {
        let mut bytes = u64_to_le_bytes(self.sec as u64);
        let mut low = u64_to_le_bytes(self.usec as u64);
        bytes.append(&mut low);
        bytes
    }
}

impl TaskInfo {
    /// The bytes of the value as they lie in user memory.
    pub open spec fn bytes(&self) -> Seq<u8> {
        task_info_bytes(self.status, self.syscall_times@, self.time)
    }

    /// The bytes of the value as they lie in user memory.
    pub fn to_bytes(&self) -> (bytes: Vec<u8>)
        ensures
            bytes@ == self.bytes(),
            bytes@.len() == TASK_INFO_SIZE,
    {
        let code: u8 = match self.status {
            TaskStatus::UnInit => 0,
            TaskStatus::Ready => 1,
            TaskStatus::Running => 2,
            TaskStatus::Exited => 3,
        };
        let mut bytes: Vec<u8> = Vec::new();
        bytes.push(code);
        bytes.push(0);
        bytes.push(0);
        bytes.push(0);
        let ghost head = seq![status_code(self.status), 0u8, 0u8, 0u8];
        let mut i: usize = 0;
        while i < MAX_SYSCALL_NUM
            invariant
                i <= MAX_SYSCALL_NUM,
                head.len() == 4,
                bytes@ == head + counts_bytes(self.syscall_times@.take(i as int)),
            decreases MAX_SYSCALL_NUM - i,
        {
            let mut piece = u32_to_le_bytes(self.syscall_times[i]);
            bytes.append(&mut piece);
            proof {
                let next = self.syscall_times@.take(i + 1);
                assert(next.drop_last() =~= self.syscall_times@.take(i as int));
            }
            i += 1;
        }
        proof {
            assert(self.syscall_times@.take(MAX_SYSCALL_NUM as int) =~= self.syscall_times@);
            lemma_counts_bytes_len(self.syscall_times@);
        }
        bytes.push(0);
        bytes.push(0);
        bytes.push(0);
        bytes.push(0);
        let mut time = u64_to_le_bytes(self.time as u64);
        bytes.append(&mut time);
        bytes
    }
}

/// `exit`: the running task ends. Its invocation is counted, the task is
/// marked `Exited` and its address space and frames are released. Returns
/// the handoff to the idle flow; the calling flow is never resumed.
pub fn sys_exit(kernel: &mut Kernel, exit_code: i32) -> (r: Switch)
    requires
        old(kernel).wf(),
        old(kernel)@.current.is_some(),
    ensures
        final(kernel).wf(),
        r == (Switch { from: ContextSlot::Scratch, to: ContextSlot::Idle }),
        final(kernel)@ == old(kernel)@.counting(SYSCALL_EXIT).current_exited(),
        final(kernel)@.tasks[old(kernel)@.current.unwrap() as int].syscall_times == counted(
            old(kernel)@.tasks[old(kernel)@.current.unwrap() as int].syscall_times,
            SYSCALL_EXIT as int,
        ),
{
    current_task_count_syscall(kernel, SYSCALL_EXIT);
    exit_current_and_run_next(kernel)
}

/// `yield`: the running task gives up the processor. Its invocation is
/// counted, and the task goes to the tail of the ready queue. Returns `0`,
/// the value that the task sees once it runs again, and the handoff to the
/// idle flow.
pub fn sys_yield(kernel: &mut Kernel) -> (r: (isize, Switch))
    requires
        old(kernel).wf(),
        old(kernel)@.current.is_some(),
    ensures
        final(kernel).wf(),
        r.0 == 0,
        r.1 == (Switch {
            from: ContextSlot::Task(old(kernel)@.current.unwrap()),
            to: ContextSlot::Idle,
        }),
        final(kernel)@ == old(kernel)@.counting(SYSCALL_YIELD).current_suspended(),
        final(kernel)@.tasks[old(kernel)@.current.unwrap() as int].syscall_times == counted(
            old(kernel)@.tasks[old(kernel)@.current.unwrap() as int].syscall_times,
            SYSCALL_YIELD as int,
        ),
{
    current_task_count_syscall(kernel, SYSCALL_YIELD);
    let handoff = suspend_current_and_run_next(kernel);
    (0, handoff)
}

/// `get_time`: stores the clock reading `now_us`, split into seconds and
/// microseconds, as a [`TimeVal`] at the user address `ts`. The destination
/// may cross a page boundary. The invocation is counted. Returns `0`, or
/// `-1` with nothing stored where some page of the destination is not
/// mapped as writable for the user. The time zone `tz` is not used.
pub fn sys_get_time(kernel: &mut Kernel, ts: usize, tz: usize, now_us: usize) -> (r: isize)
    requires
        old(kernel).wf(),
        old(kernel)@.current.is_some(),
    ensures
        final(kernel).wf(),
        r == (if old(kernel)@.user_range_ok(
            old(kernel)@.current.unwrap(),
            ts,
            TIME_VAL_SIZE,
            MapPermission::user_write(),
        ) {
            0isize
        } else {
            -1isize
        }),
        r != 0 ==> final(kernel)@ == old(kernel)@.counting(SYSCALL_GET_TIME),
        r == 0 ==> final(kernel)@ == old(kernel)@.counting(SYSCALL_GET_TIME).user_stored(
            old(kernel)@.current.unwrap(),
            ts,
            time_val_bytes(time_val_of(now_us)),
        ),
        final(kernel)@.tasks[old(kernel)@.current.unwrap() as int].syscall_times == counted(
            old(kernel)@.tasks[old(kernel)@.current.unwrap() as int].syscall_times,
            SYSCALL_GET_TIME as int,
        ),
{
    current_task_count_syscall(kernel, SYSCALL_GET_TIME);
    let id: usize = kernel.task_current();
    let bytes = TimeVal::from_us(now_us).to_bytes();
    if kernel.write_user_bytes(id, ts, &bytes) {
        0
    } else {
        -1
    }
}

/// `task_info`: stores what is known of the running task at time `now_ms`,
/// as a [`TaskInfo`], at the user address `ti`: its status, its syscall
/// counters and the milliseconds since its first dispatch. The invocation is
/// counted first, so the counters that are stored include this call.
/// Returns `0`, or `-1` with nothing stored where some page of the
/// destination is not mapped as writable for the user.
pub fn sys_task_info(kernel: &mut Kernel, ti: usize, now_ms: usize) -> (r: isize)
    requires
        old(kernel).wf(),
        old(kernel)@.current.is_some(),
    ensures
        final(kernel).wf(),
        r == (if old(kernel)@.user_range_ok(
            old(kernel)@.current.unwrap(),
            ti,
            TASK_INFO_SIZE,
            MapPermission::user_write(),
        ) {
            0isize
        } else {
            -1isize
        }),
        r != 0 ==> final(kernel)@ == old(kernel)@.counting(SYSCALL_TASK_INFO),
        r == 0 ==> final(kernel)@ == old(kernel)@.counting(SYSCALL_TASK_INFO).user_stored(
            old(kernel)@.current.unwrap(),
            ti,
            task_info_bytes(
                old(kernel)@.tasks[old(kernel)@.current.unwrap() as int].status,
                counted(
                    old(kernel)@.tasks[old(kernel)@.current.unwrap() as int].syscall_times,
                    SYSCALL_TASK_INFO as int,
                ),
                elapsed(
                    now_ms,
                    old(kernel)@.tasks[old(
                        kernel,
                    )@.current.unwrap() as int].dispatch_start.unwrap(),
                ),
            ),
        ),
        final(kernel)@.tasks[old(kernel)@.current.unwrap() as int].syscall_times == counted(
            old(kernel)@.tasks[old(kernel)@.current.unwrap() as int].syscall_times,
            SYSCALL_TASK_INFO as int,
        ),
{
    current_task_count_syscall(kernel, SYSCALL_TASK_INFO);
    let id: usize = kernel.task_current();
    let info = current_task_info(kernel, now_ms);
    let bytes = info.to_bytes();
    if kernel.write_user_bytes(id, ti, &bytes) {
        0
    } else {
        -1
    }
}

/// What `sys_mmap(start, len, port)` by the running task leads to: from
/// `pre` to `post`, with result `r`. Where the request is refused, the
/// result is `-1` and only the invocation is counted. Else the result is
/// `0`, and the address space has one more framed area over the pages
/// `[floor(start), ceil(start + len))`, with the permissions asked for and
/// frames that were free before.
pub open spec fn mmap_outcome(
    pre: KernelView,
    post: KernelView,
    start: usize,
    len: usize,
    port: usize,
    r: isize,
) -> bool {
    &&& r == (if mmap_refused(pre, start, len, port) {
        -1isize
    } else {
        0isize
    })
    &&& r != 0 ==> post == pre.counting(SYSCALL_MMAP)
    &&& r == 0 ==> ({
        let id = pre.current.unwrap();
        let area = post.tasks[id as int].areas.last();
        &&& area_mapped(pre.counting(SYSCALL_MMAP), post, id, area)
        &&& area.start == page_floor(start as int)
        &&& area.end == page_ceil(start + len)
        &&& area.map_type == MapType::Framed
        &&& area.perm == port_permission(port)
        &&& area.wf()
        &&& area.frames.no_duplicates()
        &&& area.frame_set().disjoint(pre.allocated)
    })
}

/// What `sys_munmap(start, len)` by the running task leads to: from `pre`
/// to `post`, with result `r`. Where the request is refused, the result is
/// `-1` and only the invocation is counted. Else the result is `0`, and the
/// most recently inserted area that begins at `floor(start)` is gone as a
/// whole, its pages unmapped and its frames free.
pub open spec fn munmap_outcome(
    pre: KernelView,
    post: KernelView,
    start: usize,
    len: usize,
    r: isize,
) -> bool {
    &&& r == (if munmap_refused(pre, start, len) {
        -1isize
    } else {
        0isize
    })
    &&& r != 0 ==> post == pre.counting(SYSCALL_MUNMAP)
    &&& r == 0 ==> area_unmapped(
        pre.counting(SYSCALL_MUNMAP),
        post,
        pre.current.unwrap(),
        last_starting_at(
            pre.tasks[pre.current.unwrap() as int].areas,
            page_floor(start as int) as usize,
        ),
    )
}

/// Whether two states agree on the address space of task `id`, on the
/// allocator and on memory.
pub open spec fn same_mappings(pre: KernelView, post: KernelView, id: usize) -> bool {
    &&& post.tasks[id as int].areas == pre.tasks[id as int].areas
    &&& post.tasks[id as int].table == pre.tasks[id as int].table
    &&& post.allocated == pre.allocated
    &&& post.free_frames == pre.free_frames
    &&& post.memory == pre.memory
}

/// `mmap`: maps the pages `[floor(start), ceil(start + len))` of the running
/// task, each to a fresh frame, with the permissions that `port` asks for
/// (bit 0 readable, bit 1 writable, bit 2 executable) and access for the
/// user. The invocation is counted. Returns `0`, or `-1` with no page
/// mapped where `port` has a bit above bit 2 or none of bits 0 to 2,
/// `start` is not page-aligned, the range runs past the end of the address
/// space, too few frames are free, or a page of the range is mapped
/// already.
pub fn sys_mmap(kernel: &mut Kernel, start: usize, len: usize, port: usize) -> (r: isize)
    requires
        old(kernel).wf(),
        old(kernel)@.current.is_some(),
    ensures
        final(kernel).wf(),
        mmap_outcome(old(kernel)@, final(kernel)@, start, len, port, r),
        final(kernel)@.tasks[old(kernel)@.current.unwrap() as int].syscall_times == counted(
            old(kernel)@.tasks[old(kernel)@.current.unwrap() as int].syscall_times,
            SYSCALL_MMAP as int,
        ),
{
    current_task_count_syscall(kernel, SYSCALL_MMAP);
    current_task_mmap(kernel, start, len, port)
}

/// `munmap`: unmaps the running task's area that begins at `floor(start)`.
/// The invocation is counted. Returns `0`, or `-1` with no page unmapped
/// where `start` is not page-aligned, the range runs past the end of the
/// address space, some page of `[floor(start), ceil(start + len))` is
/// unmapped, or no area begins exactly at `floor(start)`.
pub fn sys_munmap(kernel: &mut Kernel, start: usize, len: usize) -> (r: isize)
    requires
        old(kernel).wf(),
        old(kernel)@.current.is_some(),
    ensures
        final(kernel).wf(),
        munmap_outcome(old(kernel)@, final(kernel)@, start, len, r),
        final(kernel)@.tasks[old(kernel)@.current.unwrap() as int].syscall_times == counted(
            old(kernel)@.tasks[old(kernel)@.current.unwrap() as int].syscall_times,
            SYSCALL_MUNMAP as int,
        ),
{
    current_task_count_syscall(kernel, SYSCALL_MUNMAP);
    current_task_munmap(kernel, start, len)
}

/// `sbrk`: moves the running task's program break by `size` bytes and
/// resizes the task's heap to match. The invocation is counted. Returns the
/// break as it was before, or `-1` with break and heap unchanged where the
/// new break would lie below the task's base size or above the largest
/// signed machine word, the task has no heap, too few frames are free, or a
/// page that the heap would grow into is mapped already.
pub fn sys_sbrk(kernel: &mut Kernel, size: i32) -> (r: isize)
    requires
        old(kernel).wf(),
        old(kernel)@.current.is_some(),
    ensures
        final(kernel).wf(),
        r == (if old(kernel)@.break_refused(size) {
            -1
        } else {
            old(kernel)@.tasks[old(kernel)@.current.unwrap() as int].program_brk as int
        }),
        r == -1 ==> final(kernel)@ == old(kernel)@.counting(SYSCALL_SBRK),
        r != -1 ==> ({
            let id = old(kernel)@.current.unwrap();
            let t = old(kernel)@.tasks[id as int];
            let brk = moved_break(t.base_size as int, t.program_brk as int, size as int).unwrap();
            let idx = last_starting_at(t.areas, page_floor(t.base_size as int) as usize);
            let next = final(kernel)@.tasks[id as int].areas[idx];
            &&& final(kernel)@ == old(kernel)@.counting(SYSCALL_SBRK).resized(
                id,
                idx,
                next,
            ).with_break(id, brk as usize)
            &&& is_resized(t.areas[idx], next)
            &&& next.end == page_ceil(brk)
            &&& next.frames.no_duplicates()
            &&& forall|k: int|
                t.areas[idx].frames.len() <= k < next.frames.len() ==> !old(
                    kernel,
                )@.allocated.contains(#[trigger] next.frames[k])
        }),
        final(kernel)@.tasks[old(kernel)@.current.unwrap() as int].syscall_times == counted(
            old(kernel)@.tasks[old(kernel)@.current.unwrap() as int].syscall_times,
            SYSCALL_SBRK as int,
        ),
{
    current_task_count_syscall(kernel, SYSCALL_SBRK);
    match change_program_brk(kernel, size) {
        Some(old_brk) => old_brk as isize,
        None => -1,
    }
}

/// `mmap` followed at once by `munmap` of the same range succeeds and
/// restores the address space and the frame allocator; only the two
/// invocations stay counted.
pub proof fn lemma_mmap_then_munmap(
    pre: KernelView,
    mid: KernelView,
    post: KernelView,
    start: usize,
    len: usize,
    port: usize,
    r: isize,
)
    requires
        pre.wf(),
        pre.current.is_some(),
        mmap_outcome(pre, mid, start, len, port, 0),
        munmap_outcome(mid, post, start, len, r),
    ensures
        r == 0,
        post == pre.counting(SYSCALL_MMAP).counting(SYSCALL_MUNMAP),
        same_mappings(pre, post, pre.current.unwrap()),
{
    let c = pre.current.unwrap();
    let counted_pre = pre.counting(SYSCALL_MMAP);
    let area = mid.tasks[c as int].areas.last();
    lemma_map_then_unmap(counted_pre, mid, c, area);
    let target = pre.counting(SYSCALL_MMAP).counting(SYSCALL_MUNMAP);
    assert(post.tasks =~= target.tasks);
}

/// `mmap` with a permission request that has a bit above bit 2 or none of
/// bits 0 to 2 returns `-1` and leaves the address space as it was.
pub proof fn lemma_mmap_rejects_bad_port(
    pre: KernelView,
    post: KernelView,
    start: usize,
    len: usize,
    port: usize,
    r: isize,
)
    requires
        pre.wf(),
        pre.current.is_some(),
        mmap_outcome(pre, post, start, len, port, r),
        port & !0x7usize != 0 || port & 0x7usize == 0,
    ensures
        r == -1,
        same_mappings(pre, post, pre.current.unwrap()),
{
}

/// `mmap` with a start that is not page-aligned returns `-1` and leaves the
/// address space as it was.
pub proof fn lemma_mmap_rejects_unaligned_start(
    pre: KernelView,
    post: KernelView,
    start: usize,
    len: usize,
    port: usize,
    r: isize,
)
    requires
        pre.wf(),
        pre.current.is_some(),
        mmap_outcome(pre, post, start, len, port, r),
        start % PAGE_SIZE != 0,
    ensures
        r == -1,
        same_mappings(pre, post, pre.current.unwrap()),
{
}

/// `mmap` over a range of which some page `vpn` is mapped already returns
/// `-1`, and maps no page: all or nothing.
pub proof fn lemma_mmap_rejects_overlap(
    pre: KernelView,
    post: KernelView,
    start: usize,
    len: usize,
    port: usize,
    r: isize,
    vpn: usize,
)
    requires
        pre.wf(),
        pre.current.is_some(),
        mmap_outcome(pre, post, start, len, port, r),
        page_floor(start as int) <= vpn < page_ceil(start + len),
        pre.tasks[pre.current.unwrap() as int].table.contains_key(vpn),
    ensures
        r == -1,
        same_mappings(pre, post, pre.current.unwrap()),
{
}

/// `munmap` over a range of which some page `vpn` is unmapped returns `-1`
/// and leaves the address space as it was.
pub proof fn lemma_munmap_rejects_unmapped(
    pre: KernelView,
    post: KernelView,
    start: usize,
    len: usize,
    r: isize,
    vpn: usize,
)
    requires
        pre.wf(),
        pre.current.is_some(),
        munmap_outcome(pre, post, start, len, r),
        page_floor(start as int) <= vpn < page_ceil(start + len),
        !pre.tasks[pre.current.unwrap() as int].table.contains_key(vpn),
    ensures
        r == -1,
        same_mappings(pre, post, pre.current.unwrap()),
{
}

/// A syscall that leaves the running task on the processor raises the
/// task's counter of that syscall by exactly one, unless the counter has
/// reached the largest value, and no other counter.
pub proof fn lemma_counting_counts_once(pre: KernelView, id: usize, other: usize)
    requires
        pre.wf(),
        pre.current.is_some(),
        id < MAX_SYSCALL_NUM,
        other < MAX_SYSCALL_NUM,
        other != id,
    ensures
        pre.tasks[pre.current.unwrap() as int].syscall_times[id as int] < u32::MAX
            ==> pre.counting(id).tasks[pre.current.unwrap() as int].syscall_times[id as int]
            == pre.tasks[pre.current.unwrap() as int].syscall_times[id as int] + 1,
        pre.counting(id).tasks[pre.current.unwrap() as int].syscall_times[other as int]
            == pre.tasks[pre.current.unwrap() as int].syscall_times[other as int],
{
}

} // verus!
