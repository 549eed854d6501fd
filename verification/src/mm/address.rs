//! Virtual addresses and page numbers.

use vstd::prelude::*;
use crate::config::PAGE_SIZE;

verus! {

/// A virtual address.
#[derive(Clone, Copy, Debug, PartialEq, Eq, Structural)]
pub struct VirtAddr(pub usize);

/// A virtual page number: a virtual address divided by the page size.
#[derive(Clone, Copy, Debug, PartialEq, Eq, Structural)]
pub struct VirtPageNum(pub usize);

/// A physical page number: the index of a physical frame.
#[derive(Clone, Copy, Debug, PartialEq, Eq, Structural)]
pub struct PhysPageNum(pub usize);

/// The page that holds address `va`.
pub open spec fn page_floor(va: int) -> int {
    va / (PAGE_SIZE as int)
}

/// The first page that begins at or after address `va`.
pub open spec fn page_ceil(va: int) -> int {
    (va + PAGE_SIZE - 1) / (PAGE_SIZE as int)
}

/// The offset of address `va` inside its page.
pub open spec fn page_offset(va: int) -> int {
    va % (PAGE_SIZE as int)
}

impl VirtAddr {
    /// The offset of this address inside its page.
    pub fn page_offset(&self) -> (off: usize)
        ensures
            off == page_offset(self.0 as int),
            off < PAGE_SIZE,
    {
        self.0 % PAGE_SIZE
    }

    /// Whether this address lies on a page boundary.
    pub fn aligned(&self) -> (b: bool)
        ensures
            b == (page_offset(self.0 as int) == 0),
    {
        self.0 % PAGE_SIZE == 0
    }

    /// The page that holds this address.
    pub fn floor(&self) -> (vpn: VirtPageNum)
        ensures
            vpn.0 == page_floor(self.0 as int),
    {
        VirtPageNum(self.0 / PAGE_SIZE)
    }

    /// The first page that begins at or after this address.
    pub fn ceil(&self) -> (vpn: VirtPageNum)
        ensures
            vpn.0 == page_ceil(self.0 as int),
    {
        let q: usize = self.0 / PAGE_SIZE;
        if self.0 % PAGE_SIZE == 0 {
            VirtPageNum(q)
        } else {
            VirtPageNum(q + 1)
        }
    }
}

} // verus!
