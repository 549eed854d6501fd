//! The processor: which task runs, and the dispatch decisions.

use vstd::prelude::*;
use crate::config::MAX_SYSCALL_NUM;
use crate::mm::address::{page_ceil, page_floor, page_offset, PhysPageNum, VirtAddr, VirtPageNum};
use crate::mm::memory_set::{has_area_starting_at, insert_refusal, last_starting_at, MapType};
use crate::mm::page_table::{port_permission, port_valid, MapPermission};
use crate::syscall::process::{elapsed, TaskInfo};
use crate::task::context::{ContextSlot, Switch, TaskContext};
use crate::task::kernel::{area_mapped, area_unmapped, Kernel, KernelView};
use crate::task::manager::fetch_task;
use crate::task::task::TaskStatus;

verus! {

/// The state of the single processor.
pub struct Processor {
    /// The task that runs on the processor, if any.
    pub(crate) current: Option<usize>,
    /// The saved context of the idle flow, which runs the dispatch loop.
    pub(crate) idle_task_cx: TaskContext,
}

impl Processor {
    /// The handle of the running task, if any.
    pub open(crate) spec fn current_handle(&self) -> Option<usize> {
        self.current
    }

    /// The saved context of the idle flow.
    pub open(crate) spec fn idle_context(&self) -> TaskContext {
        self.idle_task_cx
    }

    /// A processor that runs no task, with every register of the idle
    /// flow's saved context zero.
    pub fn new() -> (p: Self)
        ensures
            p.current_handle().is_none(),
            p.idle_context().ra == 0,
            p.idle_context().sp == 0,
            forall|i: int| 0 <= i < 12 ==> p.idle_context().s[i] == 0,
    {
        Processor { current: None, idle_task_cx: TaskContext::zero_init() }
    }

    /// Removes the running task from the processor and returns its handle.
    pub fn take_current(&mut self) -> (r: Option<usize>)
        ensures
            r == old(self).current_handle(),
            final(self).current_handle().is_none(),
            final(self).idle_context() == old(self).idle_context(),
    {
        self.current.take()
    }

    /// The handle of the running task, which stays on the processor.
    pub fn current(&self) -> (r: Option<usize>)
        ensures
            r == self.current_handle(),
    {
        self.current
    }
}

/// One pass of the dispatch loop, which the idle flow runs for ever: takes
/// the task at the head of the ready queue, marks it `Running`, stamps it
/// with `now_ms` if this is its first dispatch, and makes it the processor's
/// current task. Returns the handoff from the idle flow to that task, for
/// the platform to carry out once the kernel state is no longer borrowed;
/// `None`, with nothing changed, where no task waits.
pub fn run_tasks(kernel: &mut Kernel, now_ms: usize) -> (r: Option<Switch>)
    requires
        old(kernel).wf(),
    ensures
        final(kernel).wf(),
        old(kernel)@.ready.len() == 0 ==> r.is_none() && final(kernel)@ == old(kernel)@,
        old(kernel)@.ready.len() > 0 ==> r == Some(
            Switch { from: ContextSlot::Idle, to: ContextSlot::Task(old(kernel)@.ready[0]) },
        ) && final(kernel)@ == old(kernel)@.dispatched(now_ms),
{
    match fetch_task(kernel) {
        Some(id) => {
            kernel.tasks[id].status = TaskStatus::Running;
            if kernel.tasks[id].dispatch_start.is_none() {
                kernel.tasks[id].dispatch_start = Some(now_ms);
            }
            kernel.processor.current = Some(id);
            proof {
                let pre = old(kernel)@;
                let post = kernel@;
                assert(post.tasks =~= pre.tasks.update(
                    id as int,
                    pre.tasks[id as int].dispatched(now_ms),
                ));
            }
            Some(Switch { from: ContextSlot::Idle, to: ContextSlot::Task(id) })
        },
        None => None,
    }
}

/// Removes the running task from the processor and returns its handle.
pub fn take_current_task(kernel: &mut Kernel) -> (r: Option<usize>)
    requires
        old(kernel).wf(),
    ensures
        final(kernel).wf(),
        r == old(kernel)@.current,
        final(kernel)@ == (KernelView { current: None, ..old(kernel)@ }),
{
    let r = kernel.processor.take_current();
    r
}

/// The handle of the running task, which stays on the processor.
pub fn current_task(kernel: &Kernel) -> (r: Option<usize>)
    ensures
        r == kernel@.current,
{
    kernel.processor.current()
}

/// The token of the running task's address space.
pub fn current_user_token(kernel: &Kernel) -> (token: usize)
    requires
        kernel.wf(),
        kernel@.current.is_some(),
    ensures
        token == kernel@.tasks[kernel@.current.unwrap() as int].root.0,
{
    let id: usize = kernel.processor.current().unwrap();
    kernel.tasks[id].get_user_token()
}

/// Where the running task's trap context lies: the frame that holds it.
pub fn current_trap_cx(kernel: &Kernel) -> (ppn: PhysPageNum)
    requires
        kernel.wf(),
        kernel@.current.is_some(),
    ensures
        ppn == kernel@.tasks[kernel@.current.unwrap() as int].trap_cx_ppn,
{
    let id: usize = kernel.processor.current().unwrap();
    kernel.tasks[id].get_trap_cx_ppn()
}

/// Counts one more invocation of syscall `syscall_id` for the running task.
pub fn current_task_count_syscall(kernel: &mut Kernel, syscall_id: usize)
    requires
        old(kernel).wf(),
        old(kernel)@.current.is_some(),
        syscall_id < MAX_SYSCALL_NUM,
    ensures
        final(kernel).wf(),
        final(kernel)@ == old(kernel)@.counting(syscall_id),
{
    let id: usize = kernel.processor.current().unwrap();
    kernel.tasks[id].count_syscall(syscall_id);
    proof {
        let pre = old(kernel)@;
        let post = kernel@;
        assert(post.tasks =~= pre.tasks.update(
            id as int,
            pre.tasks[id as int].counting(syscall_id),
        ));
    }
}

/// What `task_info` reports of the running task at time `now_ms`: its
/// status, its syscall counters, and the milliseconds since its first
/// dispatch.
pub fn current_task_info(kernel: &Kernel, now_ms: usize) -> (info: TaskInfo)
    requires
        kernel.wf(),
        kernel@.current.is_some(),
    ensures
        info.status == kernel@.tasks[kernel@.current.unwrap() as int].status,
        info.syscall_times@ == kernel@.tasks[kernel@.current.unwrap() as int].syscall_times,
        info.time == elapsed(
            now_ms,
            kernel@.tasks[kernel@.current.unwrap() as int].dispatch_start.unwrap(),
        ),
{
    let id: usize = kernel.processor.current().unwrap();
    let start: usize = kernel.tasks[id].dispatch_start.unwrap();
    let time: usize = if now_ms >= start {
        now_ms - start
    } else {
        0
    };
    TaskInfo {
        status: kernel.tasks[id].status,
        syscall_times: kernel.tasks[id].syscall_times,
        time,
    }
}

/// The handoff that gives the processor back to the idle flow: the running
/// flow's state is saved into `save_slot`, and the dispatch loop goes on.
pub fn schedule(save_slot: ContextSlot) -> (r: Switch)
    ensures
        r == (Switch { from: save_slot, to: ContextSlot::Idle }),
{
    Switch { from: save_slot, to: ContextSlot::Idle }
}

/// Whether `mmap(start, len, port)` by the running task is refused: the
/// permission request is invalid, `start` is not page-aligned, the range
/// runs past the end of the address space, too few frames are free, or a
/// page of the range is mapped already.
pub open spec fn mmap_refused(pre: KernelView, start: usize, len: usize, port: usize) -> bool {
    let t = pre.tasks[pre.current.unwrap() as int];
    ||| !port_valid(port)
    ||| page_offset(start as int) != 0
    ||| start + len > usize::MAX
    ||| insert_refusal(
        t.table,
        pre.free_frames,
        page_floor(start as int),
        page_ceil(start + len),
        MapType::Framed,
    ).is_some()
}

/// Whether `munmap(start, len)` by the running task is refused: `start` is
/// not page-aligned, the range runs past the end of the address space, a
/// page of the range is unmapped, or no area begins at the first page.
pub open spec fn munmap_refused(pre: KernelView, start: usize, len: usize) -> bool {
    let t = pre.tasks[pre.current.unwrap() as int];
    ||| page_offset(start as int) != 0
    ||| start + len > usize::MAX
    ||| exists|vpn: usize|
        page_floor(start as int) <= vpn < page_ceil(start + len)
            && !#[trigger] t.table.contains_key(vpn)
    ||| !has_area_starting_at(t.areas, page_floor(start as int) as usize)
}

/// Maps the pages `[floor(start), ceil(start + len))` in the running task's
/// address space, each to a fresh frame, with the permissions that `port`
/// asks for and access for the user. Returns `0`, or `-1` with nothing
/// changed where the request is refused.
pub fn current_task_mmap(kernel: &mut Kernel, start: usize, len: usize, port: usize) -> (r: isize)
    requires
        old(kernel).wf(),
        old(kernel)@.current.is_some(),
    ensures
        final(kernel).wf(),
        r == (if mmap_refused(old(kernel)@, start, len, port) {
            -1isize
        } else {
            0isize
        }),
        r != 0 ==> final(kernel)@ == old(kernel)@,
        r == 0 ==> ({
            let id = old(kernel)@.current.unwrap();
            let area = final(kernel)@.tasks[id as int].areas.last();
            &&& area_mapped(old(kernel)@, final(kernel)@, id, area)
            &&& area.start == page_floor(start as int)
            &&& area.end == page_ceil(start + len)
            &&& area.map_type == MapType::Framed
            &&& area.perm == port_permission(port)
            &&& area.wf()
            &&& area.frames.no_duplicates()
            &&& area.frame_set().disjoint(old(kernel)@.allocated)
        }),
{
    let start_va = VirtAddr(start);
    let perm = match MapPermission::from_port(port) {
        Some(perm) => perm,
        None => {
            return -1;
        },
    };
    if !start_va.aligned() || len > usize::MAX - start {
        return -1;
    }
    let end_va = VirtAddr(start + len);
    let id: usize = kernel.processor.current().unwrap();
    match kernel.insert_framed_area(id, start_va, end_va, perm) {
        Ok(()) => 0,
        Err(_) => -1,
    }
}

/// Unmaps the running task's area that begins at `floor(start)`, provided
/// that every page of `[floor(start), ceil(start + len))` is mapped. The
/// area is removed as a whole, however far the range reaches; an area is
/// never split or shrunk. Returns `0`, or `-1` with nothing changed where
/// the request is refused.
#[verifier::loop_isolation(false)]
pub fn current_task_munmap(kernel: &mut Kernel, start: usize, len: usize) -> (r: isize)
    requires
        old(kernel).wf(),
        old(kernel)@.current.is_some(),
    ensures
        final(kernel).wf(),
        r == (if munmap_refused(old(kernel)@, start, len) {
            -1isize
        } else {
            0isize
        }),
        r != 0 ==> final(kernel)@ == old(kernel)@,
        r == 0 ==> area_unmapped(
            old(kernel)@,
            final(kernel)@,
            old(kernel)@.current.unwrap(),
            last_starting_at(
                old(kernel)@.tasks[old(kernel)@.current.unwrap() as int].areas,
                page_floor(start as int) as usize,
            ),
        ),
{
    let start_va = VirtAddr(start);
    if !start_va.aligned() || len > usize::MAX - start {
        return -1;
    }
    let end_va = VirtAddr(start + len);
    let first: usize = start_va.floor().0;
    let end: usize = end_va.ceil().0;
    let id: usize = kernel.processor.current().unwrap();
    let ghost table = kernel@.tasks[id as int].table;
    let mut vpn: usize = first;
    while vpn < end
        invariant
            first <= vpn <= end,
            *kernel == *old(kernel),
            id < kernel.tasks@.len(),
            table == kernel@.tasks[id as int].table,
            forall|u: usize| first <= u < vpn ==> #[trigger] table.contains_key(u),
        decreases end - vpn,
    {
        if kernel.tasks[id].memory_set.translate(VirtPageNum(vpn)).is_none() {
            return -1;
        }
        vpn += 1;
    }
    match kernel.remove_area_with_start_vpn(id, VirtPageNum(first)) {
        Ok(()) => 0,
        Err(_) => -1,
    }
}

/// A task that has exited neither runs nor waits in the ready queue, and
/// holds no page and no frame.
pub proof fn lemma_exited_is_out(k: KernelView, id: usize)
    requires
        k.wf(),
        k.has_task(id),
        k.tasks[id as int].status == TaskStatus::Exited,
    ensures
        k.current != Some(id),
        !k.ready.contains(id),
        k.tasks[id as int].areas.len() == 0,
        k.tasks[id as int].owned() == Set::<usize>::empty(),
        forall|vpn: usize| !k.tasks[id as int].table.contains_key(vpn),
{
}

/// A task that has exited stays so: dispatching, suspending, another
/// task's exit and the counting of a syscall leave it `Exited`, and
/// suspending the running task does not bring it back into the ready queue.
pub proof fn lemma_exited_is_final(pre: KernelView, id: usize, now: usize, syscall: usize)
    requires
        pre.wf(),
        pre.has_task(id),
        pre.tasks[id as int].status == TaskStatus::Exited,
    ensures
        pre.ready.len() > 0 ==> pre.dispatched(now).tasks[id as int].status == TaskStatus::Exited,
        pre.current.is_some() ==> ({
            &&& pre.current_suspended().tasks[id as int].status == TaskStatus::Exited
            &&& !pre.current_suspended().ready.contains(id)
            &&& pre.current_exited().tasks[id as int].status == TaskStatus::Exited
            &&& pre.counting(syscall).tasks[id as int].status == TaskStatus::Exited
        }),
{
    if pre.current.is_some() {
        assert(pre.current_suspended().ready == pre.ready.push(pre.current.unwrap()));
    }
}

} // verus!
