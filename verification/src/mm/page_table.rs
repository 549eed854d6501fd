//! The address translator: a table from virtual page numbers to physical
//! frames with their permissions.

use vstd::prelude::*;
use std::collections::HashMap;
use crate::mm::address::{PhysPageNum, VirtPageNum};

verus! {

/// What may be done with a mapped page.
#[derive(Clone, Copy, Debug, PartialEq, Eq, Structural)]
pub struct MapPermission {
    pub readable: bool,
    pub writable: bool,
    pub executable: bool,
    pub user: bool,
}

/// Whether `port` is a permission request that `mmap` accepts: no bit above
/// bit 2 is set, and at least one of bits 0 to 2 is.
pub open spec fn port_valid(port: usize) -> bool {
    port & !0x7usize == 0 && port & 0x7usize != 0
}

/// The permission set that a valid `port` asks for: bit 0 readable, bit 1
/// writable, bit 2 executable, and always accessible to the user.
pub open spec fn port_permission(port: usize) -> MapPermission {
    MapPermission {
        readable: port & 0x1usize != 0,
        writable: port & 0x2usize != 0,
        executable: port & 0x4usize != 0,
        user: true,
    }
}

impl MapPermission {
    /// Whether every permission in `required` is granted by `self`.
    pub open spec fn allows(self, required: MapPermission) -> bool {
        &&& required.readable ==> self.readable
        &&& required.writable ==> self.writable
        &&& required.executable ==> self.executable
        &&& required.user ==> self.user
    }

    /// What the kernel needs of a user page that it writes to.
    pub open spec fn spec_user_write() -> MapPermission {
        MapPermission { readable: false, writable: true, executable: false, user: true }
    }

    /// What the kernel needs of a user page that it reads from.
    pub open spec fn spec_user_read() -> MapPermission {
        MapPermission { readable: true, writable: false, executable: false, user: true }
    }

    /// What the kernel needs of a user page that it writes to.
    #[verifier::when_used_as_spec(spec_user_write)]
    pub fn user_write() -> (perm: MapPermission)
        ensures
            perm == Self::spec_user_write(),
    {
        MapPermission { readable: false, writable: true, executable: false, user: true }
    }

    /// What the kernel needs of a user page that it reads from.
    #[verifier::when_used_as_spec(spec_user_read)]
    pub fn user_read() -> (perm: MapPermission)
        ensures
            perm == Self::spec_user_read(),
    {
        MapPermission { readable: true, writable: false, executable: false, user: true }
    }

    /// Whether every permission in `required` is granted by `self`.
    pub fn contains(&self, required: MapPermission) -> (b: bool)
        ensures
            b == self.allows(required),
    {
        (!required.readable || self.readable) && (!required.writable || self.writable) && (
        !required.executable || self.executable) && (!required.user || self.user)
    }

    /// Reads a permission request as `mmap` takes it. `None` where a bit
    /// above bit 2 is set or none of bits 0 to 2 is.
    pub fn from_port(port: usize) -> (r: Option<MapPermission>)
        ensures
            r == (if port_valid(port) {
                Some(port_permission(port))
            } else {
                None::<MapPermission>
            }),
    {
        if port & !0x7 != 0 || port & 0x7 == 0 {
            None
        } else {
            Some(
                MapPermission {
                    readable: port & 0x1 != 0,
                    writable: port & 0x2 != 0,
                    executable: port & 0x4 != 0,
                    user: true,
                },
            )
        }
    }
}

/// The valid permission requests are the numbers 1 to 7.
pub proof fn lemma_port_valid_range(port: usize)
    ensures
        port_valid(port) <==> 1 <= port <= 7,
{
    assert((port & !0x7usize == 0 && port & 0x7usize != 0) <==> (1 <= port <= 7)) by (bit_vector);
}

/// One entry of the translator: the frame behind a page and what may be done
/// with it.
#[derive(Clone, Copy, Debug, PartialEq, Eq, Structural)]
pub struct PageTableEntry {
    pub ppn: PhysPageNum,
    pub perm: MapPermission,
}

/// The address translator of one address space.
pub struct PageTable {
    root_ppn: PhysPageNum,
    entries: HashMap<usize, PageTableEntry>,
}

impl PageTable {
    /// The mapping from virtual page numbers to entries.
    pub closed spec fn view(&self) -> Map<usize, PageTableEntry> {
        self.entries@
    }

    /// The frame that identifies this translator.
    pub closed spec fn root(&self) -> PhysPageNum {
        self.root_ppn
    }

    /// An empty translator identified by frame `root_ppn`.
    pub fn new(root_ppn: PhysPageNum) -> (pt: Self)
        ensures
            pt@ == Map::<usize, PageTableEntry>::empty(),
            pt.root() == root_ppn,
    {
        PageTable { root_ppn, entries: HashMap::new() }
    }

    /// The token of this translator: the number of its root frame.
    pub fn token(&self) -> (t: usize)
        ensures
            t == self.root().0,
    {
        self.root_ppn.0
    }

    /// Installs the entry `vpn -> (ppn, perm)`. The page must be unmapped.
    pub fn map(&mut self, vpn: VirtPageNum, ppn: PhysPageNum, perm: MapPermission)
        requires
            !old(self)@.contains_key(vpn.0),
        ensures
            final(self)@ == old(self)@.insert(vpn.0, (PageTableEntry { ppn, perm })),
            final(self).root() == old(self).root(),
    {
        self.entries.insert(vpn.0, PageTableEntry { ppn, perm });
    }

    /// Removes the entry of `vpn`. The page must be mapped.
    pub fn unmap(&mut self, vpn: VirtPageNum)
        requires
            old(self)@.contains_key(vpn.0),
        ensures
            final(self)@ == old(self)@.remove(vpn.0),
            final(self).root() == old(self).root(),
    {
        self.entries.remove(&vpn.0);
    }

    /// Looks up the entry of `vpn`; `None` where the page is unmapped.
    pub fn translate(&self, vpn: VirtPageNum) -> (r: Option<PageTableEntry>)
        ensures
            r == (if self@.contains_key(vpn.0) {
                Some(self@[vpn.0])
            } else {
                None::<PageTableEntry>
            }),
    {
        match self.entries.get(&vpn.0) {
            Some(e) => Some(*e),
            None => None,
        }
    }
}

} // verus!
