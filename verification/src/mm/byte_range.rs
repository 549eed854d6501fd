//! Page-local pieces of a range of virtual bytes.
//!
//! A range of virtual addresses may cross page boundaries, and neighbouring
//! pages need not lie in neighbouring frames. Such a range is therefore
//! described by one piece per page that it touches, in order.

use vstd::prelude::*;
use crate::config::PAGE_SIZE;
use crate::mm::address::{page_floor, page_offset, PhysPageNum};
use crate::mm::page_table::{MapPermission, PageTableEntry};

verus! {

/// The bytes `[start, end)` of frame `ppn`.
#[derive(Clone, Copy, Debug, PartialEq, Eq, Structural)]
pub struct PhysRange {
    pub ppn: PhysPageNum,
    pub start: usize,
    pub end: usize,
}

impl PhysRange {
    /// The piece lies inside one frame.
    pub open spec fn wf(self) -> bool {
        self.start <= self.end <= PAGE_SIZE
    }

    /// The physical addresses of the bytes of the piece, in order.
    pub open spec fn addrs(self) -> Seq<int> {
        Seq::new(
            (self.end - self.start) as nat,
            |j: int| self.ppn.0 * PAGE_SIZE + self.start + j,
        )
    }

    /// The number of bytes of the piece.
    pub fn len(&self) -> (n: usize)
        requires
            self.wf(),
        ensures
            n == self.end - self.start,
    {
        self.end - self.start
    }
}

/// The number of bytes of all pieces together.
pub open spec fn total_len(ranges: Seq<PhysRange>) -> int
    decreases ranges.len(),
{
    if ranges.len() == 0 {
        0
    } else {
        total_len(ranges.drop_last()) + (ranges.last().end - ranges.last().start)
    }
}

/// The physical addresses of the bytes of all pieces, in order.
pub open spec fn phys_addrs(ranges: Seq<PhysRange>) -> Seq<int>
    decreases ranges.len(),
{
    if ranges.len() == 0 {
        Seq::<int>::empty()
    } else {
        phys_addrs(ranges.drop_last()) + ranges.last().addrs()
    }
}

/// The number of pages that the bytes `[base, base + len)` touch.
pub open spec fn pages_touched(base: int, len: int) -> int {
    if len <= 0 {
        0
    } else {
        page_floor(base + len - 1) - page_floor(base) + 1
    }
}

/// Whether page `vpn` is mapped with at least the permissions `required`.
pub open spec fn accessible(
    table: Map<usize, PageTableEntry>,
    vpn: int,
    required: MapPermission,
) -> bool {
    &&& 0 <= vpn <= usize::MAX
    &&& table.contains_key(vpn as usize)
    &&& table[vpn as usize].perm.allows(required)
}

/// Whether the first `m` pages that `[base, base + len)` touches are all
/// accessible, and `m` is the largest such number.
pub open spec fn is_accessible_prefix(
    table: Map<usize, PageTableEntry>,
    base: int,
    len: int,
    required: MapPermission,
    m: int,
) -> bool {
    &&& 0 <= m <= pages_touched(base, len)
    &&& forall|vpn: int|
        page_floor(base) <= vpn < page_floor(base) + m ==> #[trigger] accessible(
            table,
            vpn,
            required,
        )
    &&& m < pages_touched(base, len) ==> !accessible(table, page_floor(base) + m, required)
}

/// The first virtual address of the `k`-th piece of `[base, base + len)`.
pub open spec fn piece_lo(base: int, k: int) -> int {
    if k == 0 {
        base
    } else {
        (page_floor(base) + k) * PAGE_SIZE
    }
}

/// One past the last virtual address of the `k`-th piece of
/// `[base, base + len)`.
pub open spec fn piece_hi(base: int, len: int, k: int) -> int {
    let next = (page_floor(base) + k + 1) * PAGE_SIZE;
    if next < base + len {
        next
    } else {
        base + len
    }
}

/// The `k`-th piece of the virtual bytes `[base, base + len)`: the part of
/// the range that lies in the `k`-th page it touches, in the frame that the
/// translator gives that page.
pub open spec fn piece(
    table: Map<usize, PageTableEntry>,
    base: int,
    len: int,
    k: int,
) -> PhysRange {
    let vpn = page_floor(base) + k;
    PhysRange {
        ppn: table[vpn as usize].ppn,
        start: (piece_lo(base, k) - vpn * PAGE_SIZE) as usize,
        end: (piece_hi(base, len, k) - vpn * PAGE_SIZE) as usize,
    }
}

/// The first `m` pieces of the virtual bytes `[base, base + len)`.
pub open spec fn pieces(table: Map<usize, PageTableEntry>, base: int, len: int, m: int) -> Seq<
    PhysRange,
> {
    Seq::new(m as nat, |k: int| piece(table, base, len, k))
}

/// The number of bytes of `[base, base + len)` that its first `m` pieces
/// hold.
pub open spec fn bytes_covered(base: int, len: int, m: int) -> int {
    if m <= 0 {
        0
    } else {
        piece_hi(base, len, m - 1) - base
    }
}

/// The physical address of virtual address `va` under `table`.
pub open spec fn phys_addr(table: Map<usize, PageTableEntry>, va: int) -> int {
    table[page_floor(va) as usize].ppn.0 * PAGE_SIZE + page_offset(va)
}

/// Every piece lies inside one frame and is not empty.
pub proof fn lemma_piece_wf(table: Map<usize, PageTableEntry>, base: int, len: int, k: int)
    requires
        0 <= base,
        0 < len,
        0 <= k < pages_touched(base, len),
    ensures
        piece(table, base, len, k).wf(),
        piece(table, base, len, k).start < piece(table, base, len, k).end,
        piece(table, base, len, k).start == page_offset(piece_lo(base, k)),
        piece_lo(base, k) < piece_hi(base, len, k),
        k + 1 < pages_touched(base, len) ==> piece_hi(base, len, k) == piece_lo(base, k + 1),
        k + 1 == pages_touched(base, len) ==> piece_hi(base, len, k) == base + len,
        page_floor(piece_lo(base, k)) == page_floor(base) + k,
{
}

/// The pieces of a range, put one after the other, are the range itself:
/// the first `m` pieces hold the first `bytes_covered` bytes, and the `i`-th
/// of these bytes lies at the physical address of virtual address
/// `base + i`.
pub proof fn lemma_pieces_concat(table: Map<usize, PageTableEntry>, base: int, len: int, m: int)
    requires
        0 <= base,
        0 < len,
        0 <= m <= pages_touched(base, len),
    ensures
        total_len(pieces(table, base, len, m)) == bytes_covered(base, len, m),
        phys_addrs(pieces(table, base, len, m)).len() == bytes_covered(base, len, m),
        0 <= bytes_covered(base, len, m) <= len,
        m == pages_touched(base, len) ==> bytes_covered(base, len, m) == len,
        m < pages_touched(base, len) ==> bytes_covered(base, len, m) < len,
        forall|i: int|
            0 <= i < bytes_covered(base, len, m) ==> #[trigger] phys_addrs(
                pieces(table, base, len, m),
            )[i] == phys_addr(table, base + i),
    decreases m,
{
    let ps = pieces(table, base, len, m);
    if m > 0 {
        let prev = pieces(table, base, len, m - 1);
        lemma_pieces_concat(table, base, len, m - 1);
        assert(ps.drop_last() =~= prev);
    }
}

/// Where every page that the virtual bytes `[base, base + len)` touch is
/// accessible, what `translate_bytes` returns for them is the whole range:
/// one piece per page, each in the frame that the translator gives that
/// page, and the pieces put one after the other hold the `len` bytes in
/// order, the `i`-th at the physical address of virtual address `base + i`.
pub proof fn lemma_translation_is_whole(
    table: Map<usize, PageTableEntry>,
    base: usize,
    len: usize,
    required: MapPermission,
    ranges: Seq<PhysRange>,
)
    requires
        base + len <= usize::MAX,
        is_accessible_prefix(table, base as int, len as int, required, ranges.len() as int),
        ranges == pieces(table, base as int, len as int, ranges.len() as int),
        forall|vpn: int|
            page_floor(base as int) <= vpn < page_floor(base as int) + pages_touched(
                base as int,
                len as int,
            ) ==> accessible(table, vpn, required),
    ensures
        ranges.len() == pages_touched(base as int, len as int),
        total_len(ranges) == len,
        phys_addrs(ranges).len() == len,
        forall|i: int|
            0 <= i < len ==> #[trigger] phys_addrs(ranges)[i] == phys_addr(table, base + i),
        forall|k: int|
            0 <= k < ranges.len() ==> (#[trigger] ranges[k]).wf() && ranges[k].ppn == table[(
            page_floor(base as int) + k) as usize].ppn,
{
    let m = ranges.len() as int;
    if len > 0 {
        lemma_pieces_concat(table, base as int, len as int, m);
    }
}

/// The total length of some pieces, which must fit in `usize`.
pub fn ranges_len(ranges: &Vec<PhysRange>) -> (n: usize)
    requires
        forall|k: int| 0 <= k < ranges@.len() ==> (#[trigger] ranges@[k]).wf(),
        total_len(ranges@) <= usize::MAX,
    ensures
        n == total_len(ranges@),
{
    let mut n: usize = 0;
    let mut i: usize = 0;
    while i < ranges.len()
        invariant
            i <= ranges@.len(),
            n == total_len(ranges@.take(i as int)),
            forall|k: int| 0 <= k < ranges@.len() ==> (#[trigger] ranges@[k]).wf(),
            total_len(ranges@) <= usize::MAX,
        decreases ranges@.len() - i,
    {
        proof {
            assert(ranges@.take(i + 1).drop_last() =~= ranges@.take(i as int));
            lemma_total_len_prefix(ranges@, i + 1);
        }
        n = n + ranges[i].len();
        i += 1;
    }
    proof {
        assert(ranges@.take(i as int) =~= ranges@);
    }
    n
}

/// A prefix of well-formed pieces is no longer than the whole.
pub proof fn lemma_total_len_prefix(ranges: Seq<PhysRange>, m: int)
    requires
        0 <= m <= ranges.len(),
        forall|k: int| 0 <= k < ranges.len() ==> (#[trigger] ranges[k]).wf(),
    ensures
        0 <= total_len(ranges.take(m)) <= total_len(ranges),
    decreases ranges.len() - m,
{
    if m == ranges.len() {
        assert(ranges.take(m) =~= ranges);
        lemma_total_len_nonneg(ranges);
    } else {
        lemma_total_len_prefix(ranges, m + 1);
        assert(ranges.take(m + 1).drop_last() =~= ranges.take(m));
        lemma_total_len_nonneg(ranges.take(m));
    }
}

/// The total length of well-formed pieces is not negative.
pub proof fn lemma_total_len_nonneg(ranges: Seq<PhysRange>)
    requires
        forall|k: int| 0 <= k < ranges.len() ==> (#[trigger] ranges[k]).wf(),
    ensures
        0 <= total_len(ranges),
    decreases ranges.len(),
{
    if ranges.len() > 0 {
        lemma_total_len_nonneg(ranges.drop_last());
    }
}

} // verus!
