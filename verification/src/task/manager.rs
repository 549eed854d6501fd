//! The ready queue: the tasks that wait for the processor, first come first
//! served.

use vstd::prelude::*;
use std::collections::VecDeque;
use crate::task::kernel::{Kernel, KernelView};
use crate::task::task::{TaskControlBlock, TaskStatus};

verus! {

/// The queue of ready tasks, by handle.
pub struct TaskManager {
    pub(crate) ready_queue: VecDeque<usize>,
}

impl TaskManager {
    /// The waiting tasks, the one that waits longest first.
    pub open(crate) spec fn queue(&self) -> Seq<usize> {
        self.ready_queue@
    }

    /// An empty queue.
    pub fn new() -> (m: Self)
        ensures
            m.queue() == Seq::<usize>::empty(),
    {
        TaskManager { ready_queue: VecDeque::new() }
    }

    /// Appends `task` to the tail of the queue.
    pub fn add(&mut self, task: usize)
        ensures
            final(self).queue() == old(self).queue().push(task),
    {
        self.ready_queue.push_back(task);
    }

    /// Takes the task at the head of the queue; `None` where the queue is
    /// empty.
    pub fn fetch(&mut self) -> (r: Option<usize>)
        ensures
            old(self).queue().len() == 0 ==> r.is_none() && final(self).queue() == old(
                self,
            ).queue(),
            old(self).queue().len() > 0 ==> r == Some(old(self).queue()[0]) && final(self).queue()
                == old(self).queue().drop_first(),
    {
        let r = self.ready_queue.pop_front();
        r
    }

    /// The number of waiting tasks.
    pub fn len(&self) -> (n: usize)
        ensures
            n == self.queue().len(),
    {
        self.ready_queue.len()
    }
}

/// Takes `task`, a new task in `Ready` whose address space owns no frame
/// yet, into the kernel and appends it to the tail of the ready queue.
/// Returns its handle. Framed areas are given to the task afterwards, with
/// frames of the kernel's allocator.
pub fn add_task(kernel: &mut Kernel, task: TaskControlBlock) -> (id: usize)
    requires
        old(kernel).wf(),
        task.wf(),
        task@.status == TaskStatus::Ready,
        task@.owned() == Set::<usize>::empty(),
    ensures
        final(kernel).wf(),
        id == old(kernel)@.tasks.len(),
        final(kernel)@ == (KernelView {
            tasks: old(kernel)@.tasks.push(task@),
            ready: old(kernel)@.ready.push(id),
            ..old(kernel)@
        }),
{
    let id: usize = kernel.tasks.len();
    let ghost view = task@;
    kernel.tasks.push(task);
    kernel.manager.add(id);
    proof {
        let pre = old(kernel)@;
        let post = kernel@;
        assert(post.tasks =~= pre.tasks.push(view));
    }
    id
}

/// Takes the task at the head of the ready queue and returns its handle;
/// `None` where no task waits.
pub fn fetch_task(kernel: &mut Kernel) -> (r: Option<usize>)
    requires
        old(kernel).wf(),
    ensures
        final(kernel).wf(),
        old(kernel)@.ready.len() == 0 ==> r.is_none() && final(kernel)@ == old(kernel)@,
        old(kernel)@.ready.len() > 0 ==> r == Some(old(kernel)@.ready[0]) && final(kernel)@ == (
        KernelView { ready: old(kernel)@.ready.drop_first(), ..old(kernel)@ }),
{
    let r = kernel.manager.fetch();
    r
}

} // verus!
