//! The task control block.

use vstd::prelude::*;
use crate::config::MAX_SYSCALL_NUM;
use crate::mm::address::PhysPageNum;
use crate::mm::memory_set::{address_space_wf, owned_frames, MapAreaView, MemorySet};
use crate::mm::page_table::PageTableEntry;
use crate::task::context::TaskContext;

verus! {

/// Where a task stands in its life cycle.
#[derive(Clone, Copy, Debug, PartialEq, Eq, Structural)]
pub enum TaskStatus {
    /// Not yet set up.
    UnInit,
    /// Waiting for the processor.
    Ready,
    /// Running on the processor.
    Running,
    /// Finished; never scheduled again.
    Exited,
}

/// The kernel's record of one task.
pub struct TaskControlBlock {
    pub(crate) status: TaskStatus,
    pub(crate) context: TaskContext,
    pub(crate) memory_set: MemorySet,
    pub(crate) trap_cx_ppn: PhysPageNum,
    pub(crate) base_size: usize,
    pub(crate) program_brk: usize,
    pub(crate) syscall_times: [u32; MAX_SYSCALL_NUM],
    pub(crate) dispatch_start: Option<usize>,
}

/// The counters `counts` after one more invocation of syscall `id`. A
/// counter that has reached the largest value stays there.
pub open spec fn counted(counts: Seq<u32>, id: int) -> Seq<u32> {
    counts.update(
        id,
        if counts[id] < u32::MAX {
            (counts[id] + 1) as u32
        } else {
            counts[id]
        },
    )
}

/// The program break after a request to move the break `brk` by `delta`
/// bytes: the break may not sink below `base` nor rise above the largest
/// signed machine word. `None` where the request is invalid.
pub open spec fn moved_break(base: int, brk: int, delta: int) -> Option<int> {
    if base <= brk + delta <= isize::MAX {
        Some(brk + delta)
    } else {
        None
    }
}

/// The mathematical content of a [`TaskControlBlock`].
pub struct TaskView {
    /// The life-cycle status.
    pub status: TaskStatus,
    /// The saved execution context.
    pub context: TaskContext,
    /// The areas of the address space, in the order of their insertion.
    pub areas: Seq<MapAreaView>,
    /// The translator of the address space.
    pub table: Map<usize, PageTableEntry>,
    /// The frame that identifies the translator.
    pub root: PhysPageNum,
    /// The frame that holds the trap context.
    pub trap_cx_ppn: PhysPageNum,
    /// The size of the task's image: the lowest value of the program break.
    pub base_size: usize,
    /// The program break.
    pub program_brk: usize,
    /// How often each syscall was invoked, by syscall id.
    pub syscall_times: Seq<u32>,
    /// The time of the first dispatch, once there was one.
    pub dispatch_start: Option<usize>,
}

impl TaskView {
    /// The invariant of a task: its address space is well formed, the
    /// program break lies between the base size and the largest signed
    /// machine word, there is one counter per syscall id, and a task that
    /// has exited holds no area.
    pub open spec fn wf(self) -> bool {
        &&& address_space_wf(self.areas, self.table)
        &&& self.base_size <= self.program_brk <= isize::MAX
        &&& self.syscall_times.len() == MAX_SYSCALL_NUM
        &&& self.status == TaskStatus::Exited ==> self.areas.len() == 0
    }

    /// The frames that the task's address space owns.
    pub open spec fn owned(self) -> Set<usize> {
        owned_frames(self.areas)
    }

    /// The task after it was given the processor at time `now`: it is
    /// `Running`, and on its first dispatch the time is recorded.
    pub open spec fn dispatched(self, now: usize) -> TaskView {
        TaskView {
            status: TaskStatus::Running,
            dispatch_start: if self.dispatch_start.is_some() {
                self.dispatch_start
            } else {
                Some(now)
            },
            ..self
        }
    }

    /// The task after it gave up the processor: it is `Ready`.
    pub open spec fn suspended(self) -> TaskView {
        TaskView { status: TaskStatus::Ready, ..self }
    }

    /// The task after it has exited: its address space holds nothing.
    pub open spec fn exited(self) -> TaskView {
        TaskView {
            status: TaskStatus::Exited,
            areas: Seq::<MapAreaView>::empty(),
            table: Map::<usize, PageTableEntry>::empty(),
            ..self
        }
    }

    /// The task after one more invocation of syscall `id` was counted.
    pub open spec fn counting(self, id: usize) -> TaskView {
        TaskView { syscall_times: counted(self.syscall_times, id as int), ..self }
    }
}

impl TaskControlBlock {
    /// The mathematical content of the control block.
    pub open(crate) spec fn view(&self) -> TaskView {
        TaskView {
            status: self.status,
            context: self.context,
            areas: self.memory_set.areas(),
            table: self.memory_set.table(),
            root: self.memory_set.root(),
            trap_cx_ppn: self.trap_cx_ppn,
            base_size: self.base_size,
            program_brk: self.program_brk,
            syscall_times: self.syscall_times@,
            dispatch_start: self.dispatch_start,
        }
    }

    /// The invariant of a control block.
    pub open spec fn wf(&self) -> bool {
        self@.wf()
    }

    /// A task in `Ready` that was never dispatched and made no syscall, with
    /// the program break at `base_size`.
    pub fn new(
        memory_set: MemorySet,
        trap_cx_ppn: PhysPageNum,
        base_size: usize,
        context: TaskContext,
    ) -> (tcb: Self)
        requires
            memory_set.wf(),
            base_size <= isize::MAX,
        ensures
            tcb.wf(),
            tcb@ == (TaskView {
                status: TaskStatus::Ready,
                context,
                areas: memory_set.areas(),
                table: memory_set.table(),
                root: memory_set.root(),
                trap_cx_ppn,
                base_size,
                program_brk: base_size,
                syscall_times: Seq::new(MAX_SYSCALL_NUM as nat, |i: int| 0u32),
                dispatch_start: None,
            }),
    {
        let tcb = TaskControlBlock {
            status: TaskStatus::Ready,
            context,
            memory_set,
            trap_cx_ppn,
            base_size,
            program_brk: base_size,
            syscall_times: [0u32;MAX_SYSCALL_NUM],
            dispatch_start: None,
        };
        assert(tcb@.syscall_times =~= Seq::new(MAX_SYSCALL_NUM as nat, |i: int| 0u32));
        tcb
    }

    /// The life-cycle status.
    pub fn get_status(&self) -> (s: TaskStatus)
        ensures
            s == self@.status,
    {
        self.status
    }

    /// The token of the task's address space.
    pub fn get_user_token(&self) -> (t: usize)
        ensures
            t == self@.root.0,
    {
        self.memory_set.token()
    }

    /// The frame that holds the trap context.
    pub fn get_trap_cx_ppn(&self) -> (ppn: PhysPageNum)
        ensures
            ppn == self@.trap_cx_ppn,
    {
        self.trap_cx_ppn
    }

    /// The saved execution context.
    pub fn get_context(&self) -> (cx: TaskContext)
        ensures
            cx == self@.context,
    {
        self.context
    }

    /// The size of the task's image.
    pub fn get_base_size(&self) -> (n: usize)
        ensures
            n == self@.base_size,
    {
        self.base_size
    }

    /// The program break.
    pub fn get_program_brk(&self) -> (n: usize)
        ensures
            n == self@.program_brk,
    {
        self.program_brk
    }

    /// How often syscall `id` was invoked.
    pub fn get_syscall_times(&self, id: usize) -> (n: u32)
        requires
            id < MAX_SYSCALL_NUM,
        ensures
            n == self@.syscall_times[id as int],
    {
        self.syscall_times[id]
    }

    /// The time of the first dispatch, once there was one.
    pub fn get_dispatch_start(&self) -> (t: Option<usize>)
        ensures
            t == self@.dispatch_start,
    {
        self.dispatch_start
    }

    /// The address space.
    pub fn get_address_space(&self) -> (ms: &MemorySet)
        ensures
            ms.areas() == self@.areas,
            ms.table() == self@.table,
            ms.root() == self@.root,
    {
        &self.memory_set
    }

    /// Counts one more invocation of syscall `id`.
    pub fn count_syscall(&mut self, id: usize)
        requires
            id < MAX_SYSCALL_NUM,
        ensures
            final(self)@ == (TaskView {
                syscall_times: counted(old(self)@.syscall_times, id as int),
                ..old(self)@
            }),
    {
        let n: u32 = self.syscall_times[id];
        if n < u32::MAX {
            self.syscall_times[id] = n + 1;
        }
        assert(self@.syscall_times =~= counted(old(self)@.syscall_times, id as int));
    }

    /// Where the program break would lie after it was moved by `size`
    /// bytes. `None` where that is below the base size or above the largest
    /// signed machine word.
    pub fn break_after(&self, size: i32) -> (r: Option<usize>)
        requires
            self.wf(),
        ensures
            match moved_break(self@.base_size as int, self@.program_brk as int, size as int) {
                Some(brk) => r == Some(brk as usize),
                None => r.is_none(),
            },
    {
        let old_brk: usize = self.program_brk;
        if size >= 0 {
            let up: usize = size as usize;
            if up > (isize::MAX as usize) - old_brk {
                None
            } else {
                Some(old_brk + up)
            }
        } else {
            let down: u64 = (-(size as i64)) as u64;
            if ((old_brk - self.base_size) as u64) < down {
                None
            } else {
                Some(old_brk - (down as usize))
            }
        }
    }
}

} // verus!
