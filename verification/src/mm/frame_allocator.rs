//! The physical frame allocator: a contiguous range of frames, handed out one
//! at a time, with released frames kept on a stack for reuse.

use vstd::prelude::*;
use crate::mm::address::PhysPageNum;

verus! {

/// Allocator over the frames `[range_start, range_end)`.
pub struct StackFrameAllocator {
    start: usize,
    current: usize,
    end: usize,
    recycled: Vec<usize>,
}

/// A sequence without repetition whose items all lie in `[lo, hi)` has at
/// most `hi - lo` items.
proof fn lemma_distinct_in_range(s: Seq<usize>, lo: int, hi: int)
    requires
        lo <= hi,
        s.no_duplicates(),
        forall|i: int| 0 <= i < s.len() ==> lo <= #[trigger] s[i] < hi,
    ensures
        s.len() <= hi - lo,
    decreases hi - lo,
{
    if hi == lo {
        if s.len() > 0 {
            assert(lo <= s[0] < hi);
        }
    } else if exists|i: int| 0 <= i < s.len() && s[i] == hi - 1 {
        let i = choose|i: int| 0 <= i < s.len() && s[i] == hi - 1;
        let t = s.remove(i);
        lemma_distinct_in_range(t, lo, hi - 1);
    } else {
        lemma_distinct_in_range(s, lo, hi - 1);
    }
}

impl StackFrameAllocator {
    /// First frame of the managed range.
    pub closed spec fn range_start(&self) -> usize {
        self.start
    }

    /// One past the last frame of the managed range.
    pub closed spec fn range_end(&self) -> usize {
        self.end
    }

    /// The frames that are handed out at present.
    pub closed spec fn allocated(&self) -> Set<usize> {
        Set::new(|p: usize| self.start <= p < self.current && !self.recycled@.contains(p))
    }

    /// How many more frames can be handed out.
    pub closed spec fn free_count(&self) -> nat {
        (self.end - self.current + self.recycled@.len()) as nat
    }

    /// The frame that the next successful `alloc_frame` hands out.
    pub closed spec fn next_frame(&self) -> usize {
        if self.recycled@.len() > 0 {
            self.recycled@.last()
        } else {
            self.current
        }
    }

    /// Representation invariant.
    pub closed spec fn wf(&self) -> bool {
        &&& self.start <= self.current <= self.end
        &&& self.recycled@.no_duplicates()
        &&& forall|i: int|
            0 <= i < self.recycled@.len() ==> self.start <= #[trigger] self.recycled@[i]
                < self.current
    }

    /// An allocator over the frames `[start, end)`, none of them allocated.
    pub fn new(start: PhysPageNum, end: PhysPageNum) -> (a: Self)
        requires
            start.0 <= end.0,
        ensures
            a.wf(),
            a.range_start() == start.0,
            a.range_end() == end.0,
            a.allocated() == Set::<usize>::empty(),
            a.free_count() == end.0 - start.0,
    {
        let a = StackFrameAllocator {
            start: start.0,
            current: start.0,
            end: end.0,
            recycled: Vec::new(),
        };
        a
    }

    /// How many more frames can be handed out.
    pub fn available(&self) -> (n: usize)
        requires
            self.wf(),
        ensures
            n == self.free_count(),
    {
        proof {
            lemma_distinct_in_range(self.recycled@, self.start as int, self.current as int);
        }
        self.end - self.current + self.recycled.len()
    }

    /// Whether frame `ppn` is handed out at present.
    pub fn is_allocated(&self, ppn: PhysPageNum) -> (b: bool)
        requires
            self.wf(),
        ensures
            b == self.allocated().contains(ppn.0),
    {
        if ppn.0 < self.start || ppn.0 >= self.current {
            return false;
        }
        let mut i: usize = 0;
        while i < self.recycled.len()
            invariant
                i <= self.recycled@.len(),
                forall|j: int| 0 <= j < i ==> self.recycled@[j] != ppn.0,
            decreases self.recycled@.len() - i,
        {
            if self.recycled[i] == ppn.0 {
                return false;
            }
            i += 1;
        }
        true
    }

    /// Hands out one frame: the most recently released one if there is any,
    /// else the lowest frame never handed out. `None` when the range is
    /// exhausted, and then nothing changes.
    pub fn alloc_frame(&mut self) -> (r: Option<PhysPageNum>)
        requires
            old(self).wf(),
        ensures
            final(self).wf(),
            final(self).range_start() == old(self).range_start(),
            final(self).range_end() == old(self).range_end(),
            old(self).free_count() == 0 ==> r.is_none() && final(self).allocated() == old(
                self,
            ).allocated() && final(self).free_count() == 0,
            old(self).free_count() > 0 ==> r == Some(PhysPageNum(old(self).next_frame()))
                && !old(self).allocated().contains(old(self).next_frame())
                && final(self).allocated() == old(self).allocated().insert(old(self).next_frame())
                && final(self).free_count() == old(self).free_count() - 1,
    {
        let ghost before = *self;
        if self.recycled.len() > 0 {
            let p = self.recycled.pop().unwrap();
            proof {
                let n = before.recycled@.len() - 1;
                assert forall|q: usize|
                    self.allocated().contains(q) == before.allocated().insert(p).contains(q) by {
                    if before.recycled@.contains(q) {
                        let j = choose|j: int|
                            0 <= j < before.recycled@.len() && before.recycled@[j] == q;
                        if j < n {
                            assert(self.recycled@[j] == q);
                        }
                    }
                }
            }
            Some(PhysPageNum(p))
        } else if self.current == self.end {
            None
        } else {
            let p = self.current;
            self.current = p + 1;
            Some(PhysPageNum(p))
        }
    }

    /// Takes back frame `ppn`, which must be allocated.
    pub fn free_frame(&mut self, ppn: PhysPageNum)
        requires
            old(self).wf(),
            old(self).allocated().contains(ppn.0),
        ensures
            final(self).wf(),
            final(self).range_start() == old(self).range_start(),
            final(self).range_end() == old(self).range_end(),
            final(self).allocated() == old(self).allocated().remove(ppn.0),
            final(self).free_count() == old(self).free_count() + 1,
            final(self).next_frame() == ppn.0,
    {
        let ghost before = *self;
        self.recycled.push(ppn.0);
        proof {
            let n = before.recycled@.len() as int;
            assert(self.recycled@[n] == ppn.0);
            assert forall|q: usize|
                self.allocated().contains(q) == before.allocated().remove(ppn.0).contains(q) by {
                if before.recycled@.contains(q) {
                    let j = choose|j: int|
                        0 <= j < before.recycled@.len() && before.recycled@[j] == q;
                    assert(self.recycled@[j] == q);
                }
            }
        }
    }
}

} // verus!
