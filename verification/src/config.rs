//! Fixed parameters of the kernel core.

use vstd::prelude::*;

verus! {

/// Size of a page in bytes.
pub const PAGE_SIZE: usize = 4096;

/// Number of distinct syscall ids for which invocations are counted.
pub const MAX_SYSCALL_NUM: usize = 500;

/// Syscall id of `exit`.
pub const SYSCALL_EXIT: usize = 93;

/// Syscall id of `yield`.
pub const SYSCALL_YIELD: usize = 124;

/// Syscall id of `get_time`.
pub const SYSCALL_GET_TIME: usize = 169;

/// Syscall id of `sbrk`.
pub const SYSCALL_SBRK: usize = 214;

/// Syscall id of `munmap`.
pub const SYSCALL_MUNMAP: usize = 215;

/// Syscall id of `mmap`.
pub const SYSCALL_MMAP: usize = 222;

/// Syscall id of `task_info`.
pub const SYSCALL_TASK_INFO: usize = 410;

} // verus!
