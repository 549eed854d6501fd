//! Tasks, the ready queue and the processor.

pub mod context;
pub mod kernel;
pub mod manager;
pub mod processor;
pub mod task;
