//! The kernel state: every task, the ready queue, the processor, the frame
//! allocator and physical memory, together with the invariant that ties
//! them to each other.

use vstd::prelude::*;
use crate::config::PAGE_SIZE;
use crate::mm::address::{page_ceil, page_floor, PhysPageNum, VirtAddr, VirtPageNum};
use crate::mm::byte_range::{
    is_accessible_prefix, lemma_pieces_concat, pages_touched, phys_addrs, pieces, ranges_len,
    total_len, PhysRange,
};
use crate::mm::frame_allocator::StackFrameAllocator;
use crate::mm::memory_set::{
    frame_total, has_area_starting_at, insert_refusal, is_last_starting_at, is_resized,
    last_starting_at, lemma_last_starting_at_unique, lemma_remove_keeps_wf,
    resize_with_start_refusal, table_replaced, table_with, table_without, MapAreaView, MapError,
    MapType,
};
use crate::mm::page_table::MapPermission;
use crate::mm::phys_memory::{load, store, PhysMemory};
use crate::task::context::{ContextSlot, Switch, TaskContext};
use crate::task::manager::TaskManager;
use crate::task::processor::{schedule, take_current_task, Processor};
use crate::task::task::{moved_break, TaskControlBlock, TaskStatus, TaskView};

verus! {

/// The state of the kernel core. Tasks are kept in an arena and named by
/// their position in it, their handle; the ready queue and the processor
/// hold handles.
pub struct Kernel {
    pub(crate) tasks: Vec<TaskControlBlock>,
    pub(crate) manager: TaskManager,
    pub(crate) processor: Processor,
    pub(crate) frames: StackFrameAllocator,
    pub(crate) memory: PhysMemory,
}

/// The mathematical content of a [`Kernel`].
pub struct KernelView {
    /// Every task, by handle.
    pub tasks: Seq<TaskView>,
    /// The ready queue, the task that waits longest first.
    pub ready: Seq<usize>,
    /// The handle of the running task, if any.
    pub current: Option<usize>,
    /// The saved context of the idle flow.
    pub idle_context: TaskContext,
    /// The first frame that the allocator manages and memory holds.
    pub frame_start: usize,
    /// One past the last such frame.
    pub frame_end: usize,
    /// The frames that are allocated.
    pub allocated: Set<usize>,
    /// The number of frames that are free.
    pub free_frames: nat,
    /// The bytes of physical memory, starting with frame `frame_start`.
    pub memory: Seq<u8>,
}

/// Whether `post` is `pre` after `area` was appended to the address space
/// of task `id`: its pages are mapped and its frames allocated; nothing else
/// differs.
pub open spec fn area_mapped(
    pre: KernelView,
    post: KernelView,
    id: usize,
    area: MapAreaView,
) -> bool {
    let t = pre.tasks[id as int];
    post == (KernelView {
        tasks: pre.tasks.update(
            id as int,
            TaskView { areas: t.areas.push(area), table: table_with(t.table, area), ..t },
        ),
        allocated: pre.allocated.union(area.frame_set()),
        free_frames: (pre.free_frames - area.frames.len()) as nat,
        ..pre
    })
}

/// Whether `post` is `pre` after the area at position `idx` was taken out
/// of the address space of task `id`: its pages are unmapped and its frames
/// free; nothing else differs.
pub open spec fn area_unmapped(pre: KernelView, post: KernelView, id: usize, idx: int) -> bool {
    let t = pre.tasks[id as int];
    let area = t.areas[idx];
    post == (KernelView {
        tasks: pre.tasks.update(
            id as int,
            TaskView { areas: t.areas.remove(idx), table: table_without(t.table, area), ..t },
        ),
        allocated: pre.allocated.difference(area.frame_set()),
        free_frames: pre.free_frames + area.frames.len(),
        ..pre
    })
}

/// Taking out the area that was appended last undoes its insertion: where
/// `mid` is `pre` after `area` was appended to the address space of task
/// `id`, the area is the last one that begins at its first page, every page
/// of it is mapped in `mid`, and unmapping it leads back to `pre`.
pub proof fn lemma_map_then_unmap(pre: KernelView, mid: KernelView, id: usize, area: MapAreaView)
    requires
        pre.has_task(id),
        area_mapped(pre, mid, id, area),
        area.frames.len() <= pre.free_frames,
        area.frame_set().disjoint(pre.allocated),
        forall|vpn: usize| area.contains(vpn) ==> !pre.tasks[id as int].table.contains_key(vpn),
    ensures
        has_area_starting_at(mid.tasks[id as int].areas, area.start),
        last_starting_at(mid.tasks[id as int].areas, area.start)
            == pre.tasks[id as int].areas.len(),
        forall|vpn: usize| area.contains(vpn) ==> mid.tasks[id as int].table.contains_key(vpn),
        area_unmapped(mid, pre, id, pre.tasks[id as int].areas.len() as int),
{
    let t = pre.tasks[id as int];
    let n = t.areas.len() as int;
    let m = mid.tasks[id as int];
    lemma_last_starting_at_unique(m.areas, area.start, n);
    assert(m.areas.remove(n) =~= t.areas);
    assert(table_without(m.table, area) =~= t.table);
    assert(mid.allocated.difference(area.frame_set()) =~= pre.allocated);
    assert(mid.tasks.update(
        id as int,
        TaskView { areas: m.areas.remove(n), table: table_without(m.table, area), ..m },
    ) =~= pre.tasks);
}

impl KernelView {
    /// Whether `id` is the handle of a task.
    pub open spec fn has_task(self, id: usize) -> bool {
        id < self.tasks.len()
    }

    /// Whether `slot` names a place that exists.
    pub open spec fn slot_valid(self, slot: ContextSlot) -> bool {
        match slot {
            ContextSlot::Task(id) => id < self.tasks.len(),
            _ => true,
        }
    }

    /// The context kept in `slot`, which is not the scratch slot.
    pub open spec fn slot(self, slot: ContextSlot) -> TaskContext {
        match slot {
            ContextSlot::Task(id) => self.tasks[id as int].context,
            _ => self.idle_context,
        }
    }

    /// The state after context `cx` was saved into `slot`. What is saved
    /// into the scratch slot is lost.
    pub open spec fn saved(self, slot: ContextSlot, cx: TaskContext) -> KernelView {
        match slot {
            ContextSlot::Idle => KernelView { idle_context: cx, ..self },
            ContextSlot::Task(id) => KernelView {
                tasks: self.tasks.update(
                    id as int,
                    TaskView { context: cx, ..self.tasks[id as int] },
                ),
                ..self
            },
            ContextSlot::Scratch => self,
        }
    }

    /// The state after one more invocation of syscall `id` was counted for
    /// the running task.
    pub open spec fn counting(self, id: usize) -> KernelView {
        let c = self.current.unwrap();
        KernelView { tasks: self.tasks.update(c as int, self.tasks[c as int].counting(id)), ..self }
    }

    /// The state after the task at the head of the ready queue was
    /// dispatched at time `now`: it has left the queue, is `Running`, and is
    /// the processor's current task.
    pub open spec fn dispatched(self, now: usize) -> KernelView {
        let id = self.ready[0];
        KernelView {
            ready: self.ready.drop_first(),
            current: Some(id),
            tasks: self.tasks.update(id as int, self.tasks[id as int].dispatched(now)),
            ..self
        }
    }

    /// The state after the running task gave up the processor: it is
    /// `Ready` and waits at the tail of the ready queue, and no task runs.
    pub open spec fn current_suspended(self) -> KernelView {
        let c = self.current.unwrap();
        KernelView {
            current: None,
            ready: self.ready.push(c),
            tasks: self.tasks.update(c as int, self.tasks[c as int].suspended()),
            ..self
        }
    }

    /// The state after the running task has exited: its address space holds
    /// nothing, the frames that it owned are free, and no task runs.
    pub open spec fn current_exited(self) -> KernelView {
        let c = self.current.unwrap();
        KernelView {
            current: None,
            tasks: self.tasks.update(c as int, self.tasks[c as int].exited()),
            allocated: self.allocated.difference(self.tasks[c as int].owned()),
            free_frames: self.free_frames + frame_total(self.tasks[c as int].areas),
            ..self
        }
    }

    /// The state after the area at position `idx` of task `id` was replaced
    /// by `next`, the same area with its end moved: the pages and frames
    /// that it gained are mapped and allocated, those that it lost are
    /// unmapped and free; nothing else differs.
    pub open spec fn resized(self, id: usize, idx: int, next: MapAreaView) -> KernelView {
        let t = self.tasks[id as int];
        let area = t.areas[idx];
        KernelView {
            tasks: self.tasks.update(
                id as int,
                TaskView {
                    areas: t.areas.update(idx, next),
                    table: table_replaced(t.table, area, next),
                    ..t
                },
            ),
            allocated: self.allocated.difference(area.frame_set()).union(next.frame_set()),
            free_frames: (self.free_frames + area.frames.len() - next.frames.len()) as nat,
            ..self
        }
    }

    /// The state after the program break of task `id` was set to `brk`.
    pub open spec fn with_break(self, id: usize, brk: usize) -> KernelView {
        KernelView {
            tasks: self.tasks.update(
                id as int,
                TaskView { program_brk: brk, ..self.tasks[id as int] },
            ),
            ..self
        }
    }

    /// Why a request of the running task to move its program break by
    /// `size` bytes is refused, if it is. The heap is the area that begins
    /// at the page of the task's base size; it is resized so that it ends
    /// behind the new break.
    pub open spec fn break_refused(self, size: i32) -> bool {
        let t = self.tasks[self.current.unwrap() as int];
        match moved_break(t.base_size as int, t.program_brk as int, size as int) {
            None => true,
            Some(brk) => resize_with_start_refusal(
                t.areas,
                t.table,
                self.free_frames,
                page_floor(t.base_size as int) as usize,
                page_ceil(brk),
            ).is_some(),
        }
    }

    /// The state after `data` was stored at the virtual address `va` of
    /// task `id`.
    pub open spec fn user_stored(self, id: usize, va: usize, data: Seq<u8>) -> KernelView {
        KernelView {
            memory: store(
                self.memory,
                self.frame_start * PAGE_SIZE,
                phys_addrs(self.user_pieces(id, va, data.len() as usize)),
                data,
            ),
            ..self
        }
    }

    /// The pieces of physical memory behind the virtual bytes
    /// `[va, va + len)` of task `id`.
    pub open spec fn user_pieces(self, id: usize, va: usize, len: usize) -> Seq<PhysRange> {
        pieces(
            self.tasks[id as int].table,
            va as int,
            len as int,
            pages_touched(va as int, len as int),
        )
    }

    /// Whether the kernel can reach the virtual bytes `[va, va + len)` of
    /// task `id`: the range ends inside the address space, every page that
    /// it touches is mapped with at least the permissions `required`, and
    /// the frames behind them lie in memory.
    pub open spec fn user_range_ok(
        self,
        id: usize,
        va: usize,
        len: usize,
        required: MapPermission,
    ) -> bool {
        &&& va + len <= usize::MAX
        &&& is_accessible_prefix(
            self.tasks[id as int].table,
            va as int,
            len as int,
            required,
            pages_touched(va as int, len as int),
        )
        &&& forall|j: int|
            0 <= j < pages_touched(va as int, len as int) ==> self.frame_start <= (
            #[trigger] self.user_pieces(id, va, len)[j]).ppn.0 < self.frame_end
    }

    /// The invariant of the kernel state.
    ///
    /// - Every task is well formed, and the frames that its address space
    ///   owns are allocated.
    /// - No frame is owned by two tasks.
    /// - The ready queue holds handles of tasks in `Ready`, none of them
    ///   twice.
    /// - The running task is in `Running`, was stamped with the time of its
    ///   first dispatch, and does not wait in the ready queue.
    pub open spec fn wf(self) -> bool {
        &&& forall|i: int|
            0 <= i < self.tasks.len() ==> (#[trigger] self.tasks[i]).wf()
                && self.tasks[i].owned().subset_of(self.allocated)
        &&& forall|i: int, j: int|
            0 <= i < self.tasks.len() && 0 <= j < self.tasks.len() && i != j ==> (
            #[trigger] self.tasks[i]).owned().disjoint((#[trigger] self.tasks[j]).owned())
        &&& forall|q: int|
            0 <= q < self.ready.len() ==> (#[trigger] self.ready[q]) < self.tasks.len()
                && self.tasks[self.ready[q] as int].status == TaskStatus::Ready
        &&& self.ready.no_duplicates()
        &&& self.current matches Some(c) ==> {
            &&& c < self.tasks.len()
            &&& self.tasks[c as int].status == TaskStatus::Running
            &&& self.tasks[c as int].dispatch_start.is_some()
            &&& !self.ready.contains(c)
        }
    }
}

impl Kernel {
    /// The mathematical content of the kernel state.
    pub open(crate) spec fn view(&self) -> KernelView {
        KernelView {
            tasks: Seq::new(self.tasks@.len(), |i: int| self.tasks@[i]@),
            ready: self.manager.queue(),
            current: self.processor.current_handle(),
            idle_context: self.processor.idle_context(),
            frame_start: self.frames.range_start(),
            frame_end: self.frames.range_end(),
            allocated: self.frames.allocated(),
            free_frames: self.frames.free_count(),
            memory: self.memory@,
        }
    }

    /// The invariant of the kernel state: that of its content, and memory
    /// holds exactly the frames that the allocator manages.
    pub open(crate) spec fn wf(&self) -> bool {
        &&& self.frames.wf()
        &&& self.memory.wf()
        &&& self.memory.first_frame() == self.frames.range_start()
        &&& self.memory.end_frame() == self.frames.range_end()
        &&& self@.wf()
    }

    /// A kernel without tasks over the frames `[frame_start, frame_end)`,
    /// all of them free and zero-filled.
    pub fn new(frame_start: PhysPageNum, frame_end: PhysPageNum) -> (k: Self)
        requires
            frame_start.0 <= frame_end.0,
            frame_end.0 * PAGE_SIZE <= usize::MAX,
        ensures
            k.wf(),
            k@.tasks == Seq::<TaskView>::empty(),
            k@.ready == Seq::<usize>::empty(),
            k@.current.is_none(),
            k@.frame_start == frame_start.0,
            k@.frame_end == frame_end.0,
            k@.allocated == Set::<usize>::empty(),
            k@.free_frames == frame_end.0 - frame_start.0,
            k@.memory == Seq::new(((frame_end.0 - frame_start.0) * PAGE_SIZE) as nat, |i: int| 0u8),
    {
        let k = Kernel {
            tasks: Vec::new(),
            manager: TaskManager::new(),
            processor: Processor::new(),
            frames: StackFrameAllocator::new(frame_start, frame_end),
            memory: PhysMemory::new(frame_start, frame_end),
        };
        k
    }

    /// The number of tasks, which is one more than the largest handle.
    pub fn task_count(&self) -> (n: usize)
        ensures
            n == self@.tasks.len(),
    {
        self.tasks.len()
    }

    /// The control block of task `id`.
    pub fn task(&self, id: usize) -> (tcb: &TaskControlBlock)
        requires
            self@.has_task(id),
        ensures
            tcb@ == self@.tasks[id as int],
    {
        &self.tasks[id]
    }

    /// The handle of the running task.
    pub fn task_current(&self) -> (id: usize)
        requires
            self.wf(),
            self@.current.is_some(),
        ensures
            id == self@.current.unwrap(),
            self@.has_task(id),
    {
        self.processor.current().unwrap()
    }

    /// The number of tasks in the ready queue.
    pub fn ready_count(&self) -> (n: usize)
        ensures
            n == self@.ready.len(),
    {
        self.manager.len()
    }

    /// The number of free frames.
    pub fn free_frames(&self) -> (n: usize)
        requires
            self.wf(),
        ensures
            n == self@.free_frames,
    {
        self.frames.available()
    }

    /// Maps the pages `[floor(start_va), ceil(end_va))` in the address space
    /// of task `id`, each to a fresh frame, as a new framed area. All or
    /// nothing: where the call is refused, nothing changes.
    pub fn insert_framed_area(
        &mut self,
        id: usize,
        start_va: VirtAddr,
        end_va: VirtAddr,
        perm: MapPermission,
    ) -> (r: Result<(), MapError>)
        requires
            old(self).wf(),
            old(self)@.has_task(id),
            old(self)@.tasks[id as int].status != TaskStatus::Exited,
        ensures
            final(self).wf(),
            r == (match insert_refusal(
                old(self)@.tasks[id as int].table,
                old(self)@.free_frames,
                page_floor(start_va.0 as int),
                page_ceil(end_va.0 as int),
                MapType::Framed,
            ) {
                Some(e) => Err::<(), MapError>(e),
                None => Ok::<(), MapError>(()),
            }),
            r.is_err() ==> final(self)@ == old(self)@,
            r.is_ok() ==> ({
                let area = final(self)@.tasks[id as int].areas.last();
                &&& area_mapped(old(self)@, final(self)@, id, area)
                &&& area.start == page_floor(start_va.0 as int)
                &&& area.end == page_ceil(end_va.0 as int)
                &&& area.map_type == MapType::Framed
                &&& area.perm == perm
                &&& area.wf()
                &&& area.frames.no_duplicates()
                &&& area.frame_set().disjoint(old(self)@.allocated)
            }),
    {
        let r = self.tasks[id].memory_set.insert_framed_area(
            &mut self.frames,
            start_va,
            end_va,
            perm,
        );
        proof {
            let pre = old(self)@;
            let post = self@;
            if r.is_err() {
                assert(post.tasks =~= pre.tasks);
            } else {
                let area = post.tasks[id as int].areas.last();
                let t = pre.tasks[id as int];
                assert(post.tasks =~= pre.tasks.update(
                    id as int,
                    TaskView { areas: t.areas.push(area), table: table_with(t.table, area), ..t },
                ));
            }
        }
        r
    }

    /// Removes, from the address space of task `id`, the most recently
    /// inserted area that begins exactly at `start_vpn`: its pages are
    /// unmapped and its frames freed. Refused, with nothing changed, where
    /// no area begins there.
    pub fn remove_area_with_start_vpn(&mut self, id: usize, start_vpn: VirtPageNum) -> (r: Result<
        (),
        MapError,
    >)
        requires
            old(self).wf(),
            old(self)@.has_task(id),
        ensures
            final(self).wf(),
            r == (if has_area_starting_at(old(self)@.tasks[id as int].areas, start_vpn.0) {
                Ok::<(), MapError>(())
            } else {
                Err::<(), MapError>(MapError::NoSuchArea)
            }),
            r.is_err() ==> final(self)@ == old(self)@,
            r.is_ok() ==> ({
                let idx = last_starting_at(old(self)@.tasks[id as int].areas, start_vpn.0);
                &&& is_last_starting_at(old(self)@.tasks[id as int].areas, start_vpn.0, idx)
                &&& area_unmapped(old(self)@, final(self)@, id, idx)
            }),
    {
        let r = self.tasks[id].memory_set.remove_area_with_start_vpn(&mut self.frames, start_vpn);
        proof {
            let pre = old(self)@;
            let post = self@;
            if r.is_err() {
                assert(post.tasks =~= pre.tasks);
            } else {
                let t = pre.tasks[id as int];
                let idx = last_starting_at(t.areas, start_vpn.0);
                let area = t.areas[idx];
                assert(post.tasks =~= pre.tasks.update(
                    id as int,
                    TaskView {
                        areas: t.areas.remove(idx),
                        table: table_without(t.table, area),
                        ..t
                    },
                ));
                lemma_remove_keeps_wf(t.areas, t.table, idx);
            }
        }
        r
    }

    /// Maps the pages `[floor(start_va), ceil(end_va))` in the address space
    /// of task `id`, each to the frame with its own number, as a new
    /// identical area. No frame is allocated. All or nothing.
    pub fn insert_identical_area(
        &mut self,
        id: usize,
        start_va: VirtAddr,
        end_va: VirtAddr,
        perm: MapPermission,
    ) -> (r: Result<(), MapError>)
        requires
            old(self).wf(),
            old(self)@.has_task(id),
            old(self)@.tasks[id as int].status != TaskStatus::Exited,
        ensures
            final(self).wf(),
            r == (match insert_refusal(
                old(self)@.tasks[id as int].table,
                old(self)@.free_frames,
                page_floor(start_va.0 as int),
                page_ceil(end_va.0 as int),
                MapType::Identical,
            ) {
                Some(e) => Err::<(), MapError>(e),
                None => Ok::<(), MapError>(()),
            }),
            r.is_err() ==> final(self)@ == old(self)@,
            r.is_ok() ==> area_mapped(
                old(self)@,
                final(self)@,
                id,
                MapAreaView {
                    start: page_floor(start_va.0 as int) as usize,
                    end: page_ceil(end_va.0 as int) as usize,
                    map_type: MapType::Identical,
                    perm,
                    frames: Seq::<usize>::empty(),
                },
            ),
    {
        let r = self.tasks[id].memory_set.insert_identical_area(
            &mut self.frames,
            start_va,
            end_va,
            perm,
        );
        proof {
            let pre = old(self)@;
            let post = self@;
            if r.is_err() {
                assert(post.tasks =~= pre.tasks);
            } else {
                let area = post.tasks[id as int].areas.last();
                let t = pre.tasks[id as int];
                assert(post.tasks =~= pre.tasks.update(
                    id as int,
                    TaskView { areas: t.areas.push(area), table: table_with(t.table, area), ..t },
                ));
                assert(post.allocated =~= pre.allocated.union(area.frame_set()));
            }
        }
        r
    }

    /// Moves the end of the area of task `id` that begins exactly at
    /// `start_vpn` to page `new_end`. The pages that the area gains are
    /// mapped, those that it loses are unmapped and their frames freed.
    /// Refused, with nothing changed, where no area begins there, the new
    /// end lies before the first page, too few frames are free, or a page
    /// that the area would gain is mapped already.
    pub fn resize_area_with_start_vpn(
        &mut self,
        id: usize,
        start_vpn: VirtPageNum,
        new_end: VirtPageNum,
    ) -> (r: Result<(), MapError>)
        requires
            old(self).wf(),
            old(self)@.has_task(id),
            old(self)@.tasks[id as int].status != TaskStatus::Exited,
        ensures
            final(self).wf(),
            r == (match resize_with_start_refusal(
                old(self)@.tasks[id as int].areas,
                old(self)@.tasks[id as int].table,
                old(self)@.free_frames,
                start_vpn.0,
                new_end.0 as int,
            ) {
                Some(e) => Err::<(), MapError>(e),
                None => Ok::<(), MapError>(()),
            }),
            r.is_err() ==> final(self)@ == old(self)@,
            r.is_ok() ==> ({
                let idx = last_starting_at(old(self)@.tasks[id as int].areas, start_vpn.0);
                let area = old(self)@.tasks[id as int].areas[idx];
                let next = final(self)@.tasks[id as int].areas[idx];
                &&& is_last_starting_at(old(self)@.tasks[id as int].areas, start_vpn.0, idx)
                &&& final(self)@ == old(self)@.resized(id, idx, next)
                &&& is_resized(area, next)
                &&& next.end == new_end.0
                &&& next.frames.no_duplicates()
                &&& forall|k: int|
                    area.frames.len() <= k < next.frames.len() ==> !old(self)@.allocated.contains(
                        #[trigger] next.frames[k],
                    )
            }),
    {
        let r = self.tasks[id].memory_set.resize_area_with_start_vpn(
            &mut self.frames,
            start_vpn,
            new_end,
        );
        proof {
            let pre = old(self)@;
            let post = self@;
            if r.is_err() {
                assert(post.tasks =~= pre.tasks);
            } else {
                let t = pre.tasks[id as int];
                let idx = last_starting_at(t.areas, start_vpn.0);
                let area = t.areas[idx];
                let next = post.tasks[id as int].areas[idx];
                assert(post.tasks =~= pre.resized(id, idx, next).tasks);
                assert(area.frame_set().subset_of(t.owned())) by {
                    lemma_remove_keeps_wf(t.areas, t.table, idx);
                }
            }
        }
        r
    }

    /// Carries out a handoff on the saved contexts: `live`, the state of the
    /// flow that runs, is saved into the slot `handoff.from`, and the
    /// context kept in `handoff.to` is returned for the platform to resume.
    pub fn switch_contexts(&mut self, handoff: Switch, live: TaskContext) -> (resume: TaskContext)
        requires
            old(self).wf(),
            old(self)@.slot_valid(handoff.from),
            old(self)@.slot_valid(handoff.to),
            handoff.to != ContextSlot::Scratch,
        ensures
            final(self).wf(),
            final(self)@ == old(self)@.saved(handoff.from, live),
            resume == final(self)@.slot(handoff.to),
    {
        match handoff.from {
            ContextSlot::Idle => {
                self.processor.idle_task_cx = live;
            },
            ContextSlot::Task(id) => {
                self.tasks[id].context = live;
                proof {
                    let pre = old(self)@;
                    let post = self@;
                    assert(post.tasks =~= pre.tasks.update(
                        id as int,
                        TaskView { context: live, ..pre.tasks[id as int] },
                    ));
                }
            },
            ContextSlot::Scratch => {},
        }
        match handoff.to {
            ContextSlot::Task(id) => self.tasks[id].context,
            _ => self.processor.idle_task_cx,
        }
    }

    /// Translates the virtual bytes `[va, va + len)` of task `id` into
    /// pieces of physical memory. `None` where the kernel cannot reach all
    /// of them with the permissions `required`.
    #[verifier::loop_isolation(false)]
    pub fn translate_user_range(
        &self,
        id: usize,
        va: usize,
        len: usize,
        required: MapPermission,
    ) -> (r: Option<Vec<PhysRange>>)
        requires
            self.wf(),
            self@.has_task(id),
        ensures
            r.is_some() == self@.user_range_ok(id, va, len, required),
            r matches Some(ranges) ==> {
                &&& ranges@ == self@.user_pieces(id, va, len)
                &&& total_len(ranges@) == len
                &&& forall|k: int| 0 <= k < ranges@.len() ==> (#[trigger] ranges@[k]).wf()
                &&& forall|k: int|
                    0 <= k < ranges@.len() ==> self@.frame_start <= (#[trigger] ranges@[k]).ppn.0
                        < self@.frame_end
            },
    {
        let ranges = self.tasks[id].memory_set.translate_bytes(va, len, required);
        let ghost table = self@.tasks[id as int].table;
        let ghost m = ranges@.len() as int;
        if len > usize::MAX - va {
            return None;
        }
        proof {
            if len > 0 {
                lemma_pieces_concat(table, va as int, len as int, m);
            }
        }
        if ranges_len(&ranges) != len {
            return None;
        }
        assert(ranges@ == self@.user_pieces(id, va, len));
        let mut k: usize = 0;
        while k < ranges.len()
            invariant
                k <= ranges@.len(),
                self.wf(),
                forall|j: int|
                    0 <= j < k ==> self@.frame_start <= (#[trigger] ranges@[j]).ppn.0
                        < self@.frame_end,
            decreases ranges@.len() - k,
        {
            if !self.memory.has_frame(ranges[k].ppn) {
                return None;
            }
            k += 1;
        }
        Some(ranges)
    }

    /// Stores `data` at the virtual address `va` of task `id`, through the
    /// task's address space. All or nothing: `false`, with nothing written,
    /// where some page of the destination is not mapped as writable for the
    /// user.
    pub fn write_user_bytes(&mut self, id: usize, va: usize, data: &Vec<u8>) -> (ok: bool)
        requires
            old(self).wf(),
            old(self)@.has_task(id),
        ensures
            final(self).wf(),
            ok == old(self)@.user_range_ok(
                id,
                va,
                data@.len() as usize,
                MapPermission::user_write(),
            ),
            !ok ==> final(self)@ == old(self)@,
            ok ==> final(self)@ == old(self)@.user_stored(id, va, data@),
    {
        match self.translate_user_range(id, va, data.len(), MapPermission::user_write()) {
            Some(ranges) => {
                self.memory.write_ranges(&ranges, data);
                true
            },
            None => false,
        }
    }

    /// Loads the `len` bytes at the virtual address `va` of task `id`,
    /// through the task's address space. `None` where some page of the
    /// source is not mapped as readable for the user.
    pub fn read_user_bytes(&self, id: usize, va: usize, len: usize) -> (r: Option<Vec<u8>>)
        requires
            self.wf(),
            self@.has_task(id),
        ensures
            r.is_some() == self@.user_range_ok(id, va, len, MapPermission::user_read()),
            r matches Some(data) ==> data@ == load(
                self@.memory,
                self@.frame_start * PAGE_SIZE,
                phys_addrs(self@.user_pieces(id, va, len)),
            ),
    {
        match self.translate_user_range(id, va, len, MapPermission::user_read()) {
            Some(ranges) => Some(self.memory.read_ranges(&ranges)),
            None => None,
        }
    }
}

/// Takes the running task off the processor, marks it `Ready` and appends
/// it to the tail of the ready queue. Returns the handoff that saves the
/// task's flow into its own slot and gives the processor to the idle flow.
pub fn suspend_current_and_run_next(kernel: &mut Kernel) -> (r: Switch)
    requires
        old(kernel).wf(),
        old(kernel)@.current.is_some(),
    ensures
        final(kernel).wf(),
        r == (Switch {
            from: ContextSlot::Task(old(kernel)@.current.unwrap()),
            to: ContextSlot::Idle,
        }),
        final(kernel)@ == old(kernel)@.current_suspended(),
{
    let id: usize = take_current_task(kernel).unwrap();
    kernel.tasks[id].status = TaskStatus::Ready;
    kernel.manager.add(id);
    proof {
        let pre = old(kernel)@;
        let post = kernel@;
        assert(post.tasks =~= pre.tasks.update(id as int, pre.tasks[id as int].suspended()));
    }
    schedule(ContextSlot::Task(id))
}

/// Takes the running task off the processor for good: it is marked
/// `Exited`, its address space is emptied and every frame that it owned is
/// freed. Returns the handoff that gives the processor to the idle flow;
/// the task's flow is saved into the scratch slot and never resumed.
pub fn exit_current_and_run_next(kernel: &mut Kernel) -> (r: Switch)
    requires
        old(kernel).wf(),
        old(kernel)@.current.is_some(),
    ensures
        final(kernel).wf(),
        r == (Switch { from: ContextSlot::Scratch, to: ContextSlot::Idle }),
        final(kernel)@ == old(kernel)@.current_exited(),
{
    let id: usize = take_current_task(kernel).unwrap();
    kernel.tasks[id].status = TaskStatus::Exited;
    kernel.tasks[id].memory_set.recycle_data_pages(&mut kernel.frames);
    proof {
        let pre = old(kernel)@;
        let post = kernel@;
        assert(post.tasks =~= pre.tasks.update(id as int, pre.tasks[id as int].exited()));
    }
    schedule(ContextSlot::Scratch)
}

/// Moves the running task's program break by `size` bytes and returns the
/// break as it was before. The heap, the area that begins at the page of
/// the task's base size, is resized so that it ends behind the new break.
/// `None`, with nothing changed, where the new break would lie below the
/// base size or above the largest signed machine word, the task has no
/// heap, too few frames are free, or a page that the heap would grow into
/// is mapped already.
pub fn change_program_brk(kernel: &mut Kernel, size: i32) -> (r: Option<usize>)
    requires
        old(kernel).wf(),
        old(kernel)@.current.is_some(),
    ensures
        final(kernel).wf(),
        r == (if old(kernel)@.break_refused(size) {
            None::<usize>
        } else {
            Some(old(kernel)@.tasks[old(kernel)@.current.unwrap() as int].program_brk)
        }),
        r.is_none() ==> final(kernel)@ == old(kernel)@,
        r.is_some() ==> ({
            let id = old(kernel)@.current.unwrap();
            let t = old(kernel)@.tasks[id as int];
            let brk = moved_break(t.base_size as int, t.program_brk as int, size as int).unwrap();
            let idx = last_starting_at(t.areas, page_floor(t.base_size as int) as usize);
            let next = final(kernel)@.tasks[id as int].areas[idx];
            &&& final(kernel)@ == old(kernel)@.resized(id, idx, next).with_break(id, brk as usize)
            &&& is_resized(t.areas[idx], next)
            &&& next.end == page_ceil(brk)
            &&& next.frames.no_duplicates()
            &&& forall|k: int|
                t.areas[idx].frames.len() <= k < next.frames.len() ==> !old(
                    kernel,
                )@.allocated.contains(#[trigger] next.frames[k])
        }),
{
    let id: usize = kernel.processor.current().unwrap();
    let old_brk: usize = kernel.tasks[id].program_brk;
    let brk: usize = match kernel.tasks[id].break_after(size) {
        Some(brk) => brk,
        None => {
            return None;
        },
    };
    let heap = VirtAddr(kernel.tasks[id].base_size).floor();
    let new_end = VirtAddr(brk).ceil();
    match kernel.resize_area_with_start_vpn(id, heap, new_end) {
        Ok(()) => {},
        Err(_) => {
            return None;
        },
    }
    let ghost mid = kernel@;
    kernel.tasks[id].program_brk = brk;
    proof {
        let post = kernel@;
        assert(post.tasks =~= mid.with_break(id, brk).tasks);
    }
    Some(old_brk)
}

} // verus!
