//! The syscall layer.

pub mod process;
