//! Saved execution contexts and the description of a control-flow handoff.

use vstd::prelude::*;

verus! {

/// The resumable execution state of a control flow: return address, stack
/// pointer and the callee-saved registers.
#[derive(Clone, Copy, Debug)]
pub struct TaskContext {
    pub ra: usize,
    pub sp: usize,
    pub s: [usize; 12],
}

impl TaskContext {
    /// A context with every register zero.
    pub fn zero_init() -> (cx: Self)
        ensures
            cx.ra == 0,
            cx.sp == 0,
            forall|i: int| 0 <= i < 12 ==> cx.s[i] == 0,
    {
        TaskContext { ra: 0, sp: 0, s: [0usize;12] }
    }

    /// A context that resumes at address `ra` on the stack `sp`, with the
    /// callee-saved registers zero.
    pub fn resume_at(ra: usize, sp: usize) -> (cx: Self)
        ensures
            cx.ra == ra,
            cx.sp == sp,
            forall|i: int| 0 <= i < 12 ==> cx.s[i] == 0,
    {
        TaskContext { ra, sp, s: [0usize;12] }
    }
}

/// A place where the execution state of a control flow is kept while the
/// flow does not run.
#[derive(Clone, Copy, Debug, PartialEq, Eq, Structural)]
pub enum ContextSlot {
    /// The slot of the processor's idle flow, which runs the dispatch loop.
    Idle,
    /// The slot in the control block of the task with this handle.
    Task(usize),
    /// A slot whose content is never resumed.
    Scratch,
}

/// A control-flow handoff for the platform to carry out: the running flow's
/// state is saved into `from`, and the flow kept in `to` is resumed. The
/// running flow goes on only when a later handoff names its slot as `to`.
#[derive(Clone, Copy, Debug, PartialEq, Eq, Structural)]
pub struct Switch {
    pub from: ContextSlot,
    pub to: ContextSlot,
}

} // verus!
