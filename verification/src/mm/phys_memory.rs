//! The bytes of the physical frames that the kernel manages.

use vstd::prelude::*;
use crate::config::PAGE_SIZE;
use crate::mm::address::PhysPageNum;
use crate::mm::byte_range::{lemma_total_len_prefix, phys_addrs, total_len, PhysRange};

verus! {

/// Physical memory: the frames `[first_frame, end_frame)`, byte by byte.
pub struct PhysMemory {
    base_ppn: usize,
    bytes: Vec<u8>,
}

/// Memory `mem`, whose first byte has physical address `origin`, after the
/// bytes of `data` were stored at the addresses `addrs`, one after the other.
/// An address outside memory stores nothing.
pub open spec fn store(mem: Seq<u8>, origin: int, addrs: Seq<int>, data: Seq<u8>) -> Seq<u8>
    decreases addrs.len(),
{
    if addrs.len() == 0 {
        mem
    } else {
        let rest = store(mem, origin, addrs.drop_last(), data);
        let at = addrs.last() - origin;
        if 0 <= at < rest.len() {
            rest.update(at, data[addrs.len() - 1])
        } else {
            rest
        }
    }
}

/// The bytes of `mem` at the addresses `addrs`, in order.
pub open spec fn load(mem: Seq<u8>, origin: int, addrs: Seq<int>) -> Seq<u8> {
    Seq::new(addrs.len(), |i: int| mem[addrs[i] - origin])
}

/// Storing keeps the size of memory.
pub proof fn lemma_store_len(mem: Seq<u8>, origin: int, addrs: Seq<int>, data: Seq<u8>)
    ensures
        store(mem, origin, addrs, data).len() == mem.len(),
    decreases addrs.len(),
{
    if addrs.len() > 0 {
        lemma_store_len(mem, origin, addrs.drop_last(), data);
    }
}

/// What was stored at pairwise distinct addresses inside memory is what is
/// loaded from them afterwards, and every other byte is as before.
pub proof fn lemma_store_then_load(mem: Seq<u8>, origin: int, addrs: Seq<int>, data: Seq<u8>)
    requires
        addrs.no_duplicates(),
        addrs.len() <= data.len(),
        forall|i: int| 0 <= i < addrs.len() ==> origin <= #[trigger] addrs[i] < origin + mem.len(),
    ensures
        load(store(mem, origin, addrs, data), origin, addrs) == data.take(addrs.len() as int),
        forall|pa: int|
            origin <= pa < origin + mem.len() && !addrs.contains(pa) ==> #[trigger] store(
                mem,
                origin,
                addrs,
                data,
            )[pa - origin] == mem[pa - origin],
    decreases addrs.len(),
{
    if addrs.len() > 0 {
        let init = addrs.drop_last();
        lemma_store_then_load(mem, origin, init, data);
        lemma_store_len(mem, origin, init, data);
    }
}

impl PhysMemory {
    /// The contents, starting with the first byte of the first frame.
    pub closed spec fn view(&self) -> Seq<u8> {
        self.bytes@
    }

    /// The first frame.
    pub closed spec fn first_frame(&self) -> usize {
        self.base_ppn
    }

    /// One past the last frame.
    pub open spec fn end_frame(&self) -> int {
        self.first_frame() + (self@.len() as int) / (PAGE_SIZE as int)
    }

    /// The physical address of the first byte.
    pub open spec fn origin(&self) -> int {
        self.first_frame() * PAGE_SIZE
    }

    /// Representation invariant: whole frames, with representable addresses.
    pub closed spec fn wf(&self) -> bool {
        &&& (self.bytes@.len() as int) % (PAGE_SIZE as int) == 0
        &&& self.base_ppn * PAGE_SIZE + self.bytes@.len() <= usize::MAX
    }

    /// Whether frame `ppn` belongs to this memory.
    pub open spec fn holds_frame(&self, ppn: usize) -> bool {
        self.first_frame() <= ppn < self.end_frame()
    }

    /// Zero-filled memory for the frames `[start, end)`.
    pub fn new(start: PhysPageNum, end: PhysPageNum) -> (m: Self)
        requires
            start.0 <= end.0,
            end.0 * PAGE_SIZE <= usize::MAX,
        ensures
            m.wf(),
            m.first_frame() == start.0,
            m.end_frame() == end.0,
            m@ == Seq::new(((end.0 - start.0) * PAGE_SIZE) as nat, |i: int| 0u8),
    {
        let n: usize = (end.0 - start.0) * PAGE_SIZE;
        let bytes: Vec<u8> = vec![0u8; n];
        let m = PhysMemory { base_ppn: start.0, bytes };
        m
    }

    /// Whether frame `ppn` belongs to this memory.
    pub fn has_frame(&self, ppn: PhysPageNum) -> (b: bool)
        requires
            self.wf(),
        ensures
            b == self.holds_frame(ppn.0),
    {
        ppn.0 >= self.base_ppn && ppn.0 - self.base_ppn < self.bytes.len() / PAGE_SIZE
    }

    /// The byte at offset `offset` of frame `ppn`.
    pub fn read(&self, ppn: PhysPageNum, offset: usize) -> (b: u8)
        requires
            self.wf(),
            self.holds_frame(ppn.0),
            offset < PAGE_SIZE,
        ensures
            b == self@[ppn.0 * PAGE_SIZE + offset - self.origin()],
    {
        self.bytes[(ppn.0 - self.base_ppn) * PAGE_SIZE + offset]
    }

    /// Stores `data` into the pieces `ranges`, byte after byte in order.
    pub fn write_ranges(&mut self, ranges: &Vec<PhysRange>, data: &Vec<u8>)
        requires
            old(self).wf(),
            forall|k: int| 0 <= k < ranges@.len() ==> (#[trigger] ranges@[k]).wf(),
            forall|k: int|
                0 <= k < ranges@.len() ==> old(self).holds_frame((#[trigger] ranges@[k]).ppn.0),
            total_len(ranges@) == data@.len(),
        ensures
            final(self).wf(),
            final(self).first_frame() == old(self).first_frame(),
            final(self)@.len() == old(self)@.len(),
            final(self)@ == store(old(self)@, old(self).origin(), phys_addrs(ranges@), data@),
    {
        let ghost origin = self.origin();
        let ghost before = self@;
        let total: usize = data.len();
        let mut n: usize = 0;
        let mut ci: usize = 0;
        while ci < ranges.len()
            invariant
                ci <= ranges@.len(),
                self.wf(),
                self.first_frame() == old(self).first_frame(),
                self@.len() == before.len(),
                origin == self.origin(),
                before == old(self)@,
                forall|k: int| 0 <= k < ranges@.len() ==> (#[trigger] ranges@[k]).wf(),
                forall|k: int|
                    0 <= k < ranges@.len() ==> self.holds_frame((#[trigger] ranges@[k]).ppn.0),
                total_len(ranges@) == data@.len(),
                total == data@.len(),
                n == total_len(ranges@.take(ci as int)),
                n == phys_addrs(ranges@.take(ci as int)).len(),
                self@ == store(before, origin, phys_addrs(ranges@.take(ci as int)), data@),
            decreases ranges@.len() - ci,
        {
            let c: PhysRange = ranges[ci];
            let ghost done = phys_addrs(ranges@.take(ci as int));
            proof {
                assert(ranges@.take(ci + 1).drop_last() =~= ranges@.take(ci as int));
                lemma_total_len_prefix(ranges@, ci + 1);
            }
            let frame_base: usize = (c.ppn.0 - self.base_ppn) * PAGE_SIZE;
            let mut j: usize = c.start;
            while j < c.end
                invariant
                    c.wf(),
                    c.start <= j <= c.end,
                    self.wf(),
                    self.first_frame() == old(self).first_frame(),
                    self@.len() == before.len(),
                    origin == self.origin(),
                    self.holds_frame(c.ppn.0),
                    frame_base == (c.ppn.0 - self.first_frame()) * PAGE_SIZE,
                    n == done.len() + (j - c.start),
                    done.len() + (c.end - c.start) <= data@.len(),
                    total == data@.len(),
                    self@ == store(before, origin, done + c.addrs().take(j - c.start), data@),
                decreases c.end - j,
            {
                let ghost written = done + c.addrs().take(j - c.start);
                let ghost next = done + c.addrs().take(j + 1 - c.start);
                let b: u8 = data[n];
                self.bytes.set(frame_base + j, b);
                proof {
                    assert(next.drop_last() =~= written);
                }
                n += 1;
                j += 1;
            }
            proof {
                assert(c.addrs().take(c.end - c.start) =~= c.addrs());
            }
            ci += 1;
        }
        proof {
            assert(ranges@.take(ci as int) =~= ranges@);
        }
    }

    /// Loads the bytes of the pieces `ranges`, in order.
    pub fn read_ranges(&self, ranges: &Vec<PhysRange>) -> (data: Vec<u8>)
        requires
            self.wf(),
            forall|k: int| 0 <= k < ranges@.len() ==> (#[trigger] ranges@[k]).wf(),
            forall|k: int|
                0 <= k < ranges@.len() ==> self.holds_frame((#[trigger] ranges@[k]).ppn.0),
        ensures
            data@ == load(self@, self.origin(), phys_addrs(ranges@)),
    {
        let mut data: Vec<u8> = Vec::new();
        let mut ci: usize = 0;
        while ci < ranges.len()
            invariant
                ci <= ranges@.len(),
                self.wf(),
                forall|k: int| 0 <= k < ranges@.len() ==> (#[trigger] ranges@[k]).wf(),
                forall|k: int|
                    0 <= k < ranges@.len() ==> self.holds_frame((#[trigger] ranges@[k]).ppn.0),
                data@ == load(self@, self.origin(), phys_addrs(ranges@.take(ci as int))),
            decreases ranges@.len() - ci,
        {
            let c: PhysRange = ranges[ci];
            let ghost done = phys_addrs(ranges@.take(ci as int));
            proof {
                assert(ranges@.take(ci + 1).drop_last() =~= ranges@.take(ci as int));
            }
            let frame_base: usize = (c.ppn.0 - self.base_ppn) * PAGE_SIZE;
            let mut j: usize = c.start;
            while j < c.end
                invariant
                    c.wf(),
                    c.start <= j <= c.end,
                    self.wf(),
                    self.holds_frame(c.ppn.0),
                    frame_base == (c.ppn.0 - self.first_frame()) * PAGE_SIZE,
                    data@ == load(self@, self.origin(), done + c.addrs().take(j - c.start)),
                decreases c.end - j,
            {
                data.push(self.bytes[frame_base + j]);
                j += 1;
            }
            ci += 1;
        }
        proof {
            assert(ranges@.take(ci as int) =~= ranges@);
        }
        data
    }
}

} // verus!
