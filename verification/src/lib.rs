//! Scheduling and virtual-memory core of a small single-core kernel.
//!
//! The crate holds the per-task address spaces, the ready queue, the
//! processor's dispatch decisions and the process-management syscalls.
//! Hardware is kept outside: the clock is passed in as a reading, and the
//! register-level context switch is described by a
//! [`task::context::Switch`] value that the platform carries out.

pub mod config;
pub mod mm;
pub mod syscall;
pub mod task;
