//! Memory management: addresses, physical frames, the address translator and
//! the per-task address space.

pub mod address;
pub mod byte_range;
pub mod frame_allocator;
pub mod page_table;
pub mod phys_memory;
pub mod memory_set;
