//! The address space of one task: a translator and the list of mapped areas
//! that account for every entry in it.

use vstd::prelude::*;
use crate::config::PAGE_SIZE;
use crate::mm::address::{page_ceil, page_floor, PhysPageNum, VirtAddr, VirtPageNum};
use crate::mm::byte_range::{accessible, is_accessible_prefix, pieces, PhysRange};
use crate::mm::frame_allocator::StackFrameAllocator;
use crate::mm::page_table::{MapPermission, PageTable, PageTableEntry};

verus! {

/// How the pages of an area get their frames.
#[derive(Clone, Copy, Debug, PartialEq, Eq, Structural)]
pub enum MapType {
    /// Every page is mapped to the frame with the same number.
    Identical,
    /// Every page is mapped to a frame of its own, owned by the area.
    Framed,
}

/// Why an address-space operation was refused.
#[derive(Clone, Copy, Debug, PartialEq, Eq, Structural)]
pub enum MapError {
    /// The end of the requested range lies before its start.
    InvalidRange,
    /// A page of the requested range is mapped already.
    AlreadyMapped,
    /// The allocator has fewer free frames than the range has pages.
    OutOfFrames,
    /// No area begins at the given page.
    NoSuchArea,
}

/// A contiguous range of pages with one permission set.
pub struct MapArea {
    start_vpn: usize,
    end_vpn: usize,
    map_type: MapType,
    perm: MapPermission,
    frames: Vec<usize>,
}

/// The mathematical content of a [`MapArea`]: the pages `[start, end)`, and,
/// for a framed area, the frame of each page in order.
pub struct MapAreaView {
    pub start: usize,
    pub end: usize,
    pub map_type: MapType,
    pub perm: MapPermission,
    pub frames: Seq<usize>,
}

impl MapAreaView {
    /// Whether page `vpn` belongs to the area.
    pub open spec fn contains(self, vpn: usize) -> bool {
        self.start <= vpn < self.end
    }

    /// The pages of the area.
    pub open spec fn pages(self) -> Set<usize> {
        Set::new(|vpn: usize| self.contains(vpn))
    }

    /// The frames that the area owns.
    pub open spec fn frame_set(self) -> Set<usize> {
        Set::new(|p: usize| self.map_type == MapType::Framed && self.frames.contains(p))
    }

    /// A framed area has one frame per page; an identical one has none.
    pub open spec fn wf(self) -> bool {
        &&& self.start <= self.end
        &&& self.map_type == MapType::Framed ==> self.frames.len() == self.end - self.start
        &&& self.map_type == MapType::Identical ==> self.frames.len() == 0
    }

    /// The translator entry that the area gives page `vpn`.
    pub open spec fn entry(self, vpn: usize) -> PageTableEntry {
        PageTableEntry {
            ppn: PhysPageNum(
                match self.map_type {
                    MapType::Identical => vpn,
                    MapType::Framed => self.frames[vpn - self.start],
                },
            ),
            perm: self.perm,
        }
    }
}

/// Whether the `k`-th frame of the `i`-th area is frame `p`.
pub open spec fn owns(areas: Seq<MapAreaView>, i: int, k: int, p: usize) -> bool {
    &&& 0 <= i < areas.len()
    &&& areas[i].map_type == MapType::Framed
    &&& 0 <= k < areas[i].frames.len()
    &&& areas[i].frames[k] == p
}

/// The frames owned by the areas of an address space.
pub open spec fn owned_frames(areas: Seq<MapAreaView>) -> Set<usize> {
    Set::new(|p: usize| exists|i: int, k: int| owns(areas, i, k, p))
}

/// The number of frames owned by the areas of an address space.
pub open spec fn frame_total(areas: Seq<MapAreaView>) -> nat
    decreases areas.len(),
{
    if areas.len() == 0 {
        0
    } else {
        frame_total(areas.drop_last()) + areas.last().frames.len()
    }
}

/// Whether some area holds page `vpn`.
pub open spec fn covered(areas: Seq<MapAreaView>, vpn: usize) -> bool {
    exists|i: int| 0 <= i < areas.len() && #[trigger] areas[i].contains(vpn)
}

/// The invariant of an address space: the areas are pairwise disjoint, the
/// translator holds exactly the entries that the areas give their pages, and
/// no frame is owned twice.
pub open spec fn address_space_wf(
    areas: Seq<MapAreaView>,
    table: Map<usize, PageTableEntry>,
) -> bool {
    &&& forall|i: int| 0 <= i < areas.len() ==> (#[trigger] areas[i]).wf()
    &&& forall|i: int, vpn: usize|
        0 <= i < areas.len() && #[trigger] areas[i].contains(vpn) ==> table.contains_key(vpn)
            && table[vpn] == areas[i].entry(vpn)
    &&& forall|vpn: usize| #[trigger] table.contains_key(vpn) ==> covered(areas, vpn)
    &&& forall|i: int, j: int, vpn: usize|
        0 <= i < areas.len() && 0 <= j < areas.len() && i != j && #[trigger] areas[i].contains(
            vpn,
        ) ==> !#[trigger] areas[j].contains(vpn)
    &&& forall|i: int, k: int, j: int, l: int, p: usize|
        #[trigger] owns(areas, i, k, p) && #[trigger] owns(areas, j, l, p) ==> i == j && k == l
}

/// Whether an area begins at page `vpn`.
pub open spec fn has_area_starting_at(areas: Seq<MapAreaView>, vpn: usize) -> bool {
    exists|i: int| 0 <= i < areas.len() && (#[trigger] areas[i]).start == vpn
}

/// Whether `idx` is the position of the most recently inserted area that
/// begins at page `vpn`.
pub open spec fn is_last_starting_at(areas: Seq<MapAreaView>, vpn: usize, idx: int) -> bool {
    &&& 0 <= idx < areas.len()
    &&& areas[idx].start == vpn
    &&& forall|j: int| idx < j < areas.len() ==> (#[trigger] areas[j]).start != vpn
}

/// The position of the most recently inserted area that begins at `vpn`.
pub open spec fn last_starting_at(areas: Seq<MapAreaView>, vpn: usize) -> int {
    choose|idx: int| is_last_starting_at(areas, vpn, idx)
}

/// At most one position is that of the last area beginning at `vpn`.
pub proof fn lemma_last_starting_at_unique(areas: Seq<MapAreaView>, vpn: usize, idx: int)
    requires
        is_last_starting_at(areas, vpn, idx),
    ensures
        last_starting_at(areas, vpn) == idx,
        has_area_starting_at(areas, vpn),
{
}

/// The translator after the pages of `area` were given their entries.
pub open spec fn table_with(table: Map<usize, PageTableEntry>, area: MapAreaView) -> Map<
    usize,
    PageTableEntry,
> {
    table.union_prefer_right(
        Map::new(|vpn: usize| area.contains(vpn), |vpn: usize| area.entry(vpn)),
    )
}

/// The translator after the pages of `area` were unmapped.
pub open spec fn table_without(table: Map<usize, PageTableEntry>, area: MapAreaView) -> Map<
    usize,
    PageTableEntry,
> {
    table.remove_keys(area.pages())
}

/// Appending an area whose pages are unmapped and whose frames are owned by
/// nobody keeps the invariant, and adds exactly its frames to the owned ones.
pub proof fn lemma_insert_keeps_wf(
    areas: Seq<MapAreaView>,
    table: Map<usize, PageTableEntry>,
    area: MapAreaView,
)
    requires
        address_space_wf(areas, table),
        area.wf(),
        forall|vpn: usize| area.contains(vpn) ==> !table.contains_key(vpn),
        area.frames.no_duplicates(),
        forall|k: int|
            0 <= k < area.frames.len() ==> !owned_frames(areas).contains(#[trigger] area.frames[k]),
    ensures
        address_space_wf(areas.push(area), table_with(table, area)),
        owned_frames(areas.push(area)) == owned_frames(areas).union(area.frame_set()),
{
    let n = areas.len() as int;
    let areas2 = areas.push(area);
    let table2 = table_with(table, area);
    assert forall|vpn: usize| #[trigger] table2.contains_key(vpn) implies covered(areas2, vpn) by {
        if area.contains(vpn) {
            assert(areas2[n].contains(vpn));
        } else {
            let i = choose|i: int| 0 <= i < areas.len() && #[trigger] areas[i].contains(vpn);
            assert(areas2[i].contains(vpn));
        }
    }
    assert forall|i: int, k: int, j: int, l: int, p: usize|
        #[trigger] owns(areas2, i, k, p) && #[trigger] owns(areas2, j, l, p) implies i == j && k
        == l by {
        if i < n && j < n {
            assert(owns(areas, i, k, p) && owns(areas, j, l, p));
        } else if i < n {
            assert(owns(areas, i, k, p));
        } else if j < n {
            assert(owns(areas, j, l, p));
        }
    }
    assert forall|p: usize|
        owned_frames(areas2).contains(p) == owned_frames(areas).union(area.frame_set()).contains(
            p,
        ) by {
        if owned_frames(areas2).contains(p) {
            let (i, k) = choose|i: int, k: int| owns(areas2, i, k, p);
            if i < n {
                assert(owns(areas, i, k, p));
            }
        }
        if owned_frames(areas).contains(p) {
            let (i, k) = choose|i: int, k: int| owns(areas, i, k, p);
            assert(owns(areas2, i, k, p));
        }
        if area.frame_set().contains(p) {
            let k = choose|k: int| 0 <= k < area.frames.len() && area.frames[k] == p;
            assert(owns(areas2, n, k, p));
        }
    }
}

/// Taking out one area together with the entries of its pages keeps the
/// invariant, and takes exactly its frames from the owned ones.
pub proof fn lemma_remove_keeps_wf(
    areas: Seq<MapAreaView>,
    table: Map<usize, PageTableEntry>,
    idx: int,
)
    requires
        address_space_wf(areas, table),
        0 <= idx < areas.len(),
    ensures
        address_space_wf(areas.remove(idx), table_without(table, areas[idx])),
        owned_frames(areas.remove(idx)) == owned_frames(areas).difference(areas[idx].frame_set()),
        areas[idx].frame_set().subset_of(owned_frames(areas)),
        areas[idx].map_type == MapType::Framed ==> areas[idx].frames.no_duplicates(),
{
    let area = areas[idx];
    let areas2 = areas.remove(idx);
    let table2 = table_without(table, area);
    let up = |i: int| if i < idx { i } else { i + 1 };
    assert forall|vpn: usize| #[trigger] table2.contains_key(vpn) implies covered(areas2, vpn) by {
        let i = choose|i: int| 0 <= i < areas.len() && #[trigger] areas[i].contains(vpn);
        let i2 = if i < idx { i } else { i - 1 };
        assert(areas2[i2].contains(vpn));
    }
    assert forall|i: int, k: int, j: int, l: int, p: usize|
        #[trigger] owns(areas2, i, k, p) && #[trigger] owns(areas2, j, l, p) implies i == j && k
        == l by {
        assert(owns(areas, up(i), k, p) && owns(areas, up(j), l, p));
    }
    assert forall|p: usize|
        owned_frames(areas2).contains(p) == owned_frames(areas).difference(
            area.frame_set(),
        ).contains(p) by {
        if owned_frames(areas2).contains(p) {
            let (i, k) = choose|i: int, k: int| owns(areas2, i, k, p);
            assert(owns(areas, up(i), k, p));
            if area.frame_set().contains(p) {
                let l = choose|l: int| 0 <= l < area.frames.len() && area.frames[l] == p;
                assert(owns(areas, idx, l, p));
            }
        }
        if owned_frames(areas).contains(p) && !area.frame_set().contains(p) {
            let (i, k) = choose|i: int, k: int| owns(areas, i, k, p);
            let i2 = if i < idx { i } else { i - 1 };
            assert(owns(areas2, i2, k, p));
        }
    }
    assert forall|p: usize| area.frame_set().contains(p) implies owned_frames(areas).contains(
        p,
    ) by {
        let l = choose|l: int| 0 <= l < area.frames.len() && area.frames[l] == p;
        assert(owns(areas, idx, l, p));
    }
    if area.map_type == MapType::Framed {
        assert forall|k: int, l: int|
            0 <= k < area.frames.len() && 0 <= l < area.frames.len() && k != l implies
            area.frames[k] != area.frames[l] by {
            if area.frames[k] == area.frames[l] {
                assert(owns(areas, idx, k, area.frames[k]) && owns(areas, idx, l, area.frames[k]));
            }
        }
    }
}

/// Whether `next` is `area` with its end moved: the same first page, kind
/// and permissions, and on the pages that both hold, the same frames.
pub open spec fn is_resized(area: MapAreaView, next: MapAreaView) -> bool {
    &&& next.wf()
    &&& next.start == area.start
    &&& next.map_type == area.map_type
    &&& next.perm == area.perm
    &&& forall|k: int|
        0 <= k < area.frames.len() && k < next.frames.len() ==> #[trigger] next.frames[k]
            == area.frames[k]
}

/// The translator after `area` was replaced by `next`.
pub open spec fn table_replaced(
    table: Map<usize, PageTableEntry>,
    area: MapAreaView,
    next: MapAreaView,
) -> Map<usize, PageTableEntry> {
    table_with(table_without(table, area), next)
}

/// Moving the end of one area keeps the invariant, if the pages that it
/// gains are unmapped and the frames that it gains are owned by nobody. The
/// owned frames change by the frames of that area.
pub proof fn lemma_resize_keeps_wf(
    areas: Seq<MapAreaView>,
    table: Map<usize, PageTableEntry>,
    idx: int,
    next: MapAreaView,
)
    requires
        address_space_wf(areas, table),
        0 <= idx < areas.len(),
        is_resized(areas[idx], next),
        forall|vpn: usize|
            next.contains(vpn) && !areas[idx].contains(vpn) ==> !table.contains_key(vpn),
        next.frames.no_duplicates(),
        forall|k: int|
            areas[idx].frames.len() <= k < next.frames.len() ==> !owned_frames(areas).contains(
                #[trigger] next.frames[k],
            ),
    ensures
        address_space_wf(areas.update(idx, next), table_replaced(table, areas[idx], next)),
        owned_frames(areas.update(idx, next)) == owned_frames(areas).difference(
            areas[idx].frame_set(),
        ).union(next.frame_set()),
        areas[idx].frame_set().subset_of(owned_frames(areas)),
{
    let area = areas[idx];
    let areas2 = areas.update(idx, next);
    let table2 = table_replaced(table, area, next);
    assert forall|vpn: usize| #[trigger] table2.contains_key(vpn) implies covered(areas2, vpn) by {
        if next.contains(vpn) {
            assert(areas2[idx].contains(vpn));
        } else {
            let i = choose|i: int| 0 <= i < areas.len() && #[trigger] areas[i].contains(vpn);
            assert(areas2[i].contains(vpn));
        }
    }
    assert forall|i: int, k: int, j: int, l: int, p: usize|
        #[trigger] owns(areas2, i, k, p) && #[trigger] owns(areas2, j, l, p) implies i == j && k
        == l by {
        if i != idx && j != idx {
            assert(owns(areas, i, k, p) && owns(areas, j, l, p));
        } else if i == idx && j != idx {
            assert(owns(areas, j, l, p));
            if k < area.frames.len() {
                assert(owns(areas, idx, k, p));
            }
        } else if i != idx {
            assert(owns(areas, i, k, p));
            if l < area.frames.len() {
                assert(owns(areas, idx, l, p));
            } else {
                assert(owned_frames(areas).contains(next.frames[l]));
            }
        }
    }
    let target = owned_frames(areas).difference(area.frame_set()).union(next.frame_set());
    assert forall|p: usize| owned_frames(areas2).contains(p) == target.contains(p) by {
        if owned_frames(areas2).contains(p) {
            let (i, k) = choose|i: int, k: int| owns(areas2, i, k, p);
            if i != idx {
                assert(owns(areas, i, k, p));
                if area.frame_set().contains(p) {
                    let l = choose|l: int| 0 <= l < area.frames.len() && area.frames[l] == p;
                    assert(owns(areas, idx, l, p));
                }
            }
        }
        if owned_frames(areas).contains(p) && !area.frame_set().contains(p) {
            let (i, k) = choose|i: int, k: int| owns(areas, i, k, p);
            assert(owns(areas2, i, k, p));
        }
        if next.frame_set().contains(p) {
            let k = choose|k: int| 0 <= k < next.frames.len() && next.frames[k] == p;
            assert(owns(areas2, idx, k, p));
        }
    }
    assert(owned_frames(areas2) =~= target);
    assert forall|p: usize| area.frame_set().contains(p) implies owned_frames(areas).contains(
        p,
    ) by {
        let l = choose|l: int| 0 <= l < area.frames.len() && area.frames[l] == p;
        assert(owns(areas, idx, l, p));
    }
}

/// Why inserting the pages `[start, end)` is refused, if it is: the range is
/// checked first, then the number of free frames, then the pages.
pub open spec fn insert_refusal(
    table: Map<usize, PageTableEntry>,
    free: nat,
    start: int,
    end: int,
    map_type: MapType,
) -> Option<MapError> {
    if start > end {
        Some(MapError::InvalidRange)
    } else if map_type == MapType::Framed && free < end - start {
        Some(MapError::OutOfFrames)
    } else if exists|vpn: usize| start <= vpn < end && #[trigger] table.contains_key(vpn) {
        Some(MapError::AlreadyMapped)
    } else {
        None
    }
}

/// Why moving the end of `area` to page `end` is refused, if it is: the new
/// end is checked first, then the number of free frames, then the pages
/// that the area would gain.
pub open spec fn resize_refusal(
    table: Map<usize, PageTableEntry>,
    free: nat,
    area: MapAreaView,
    end: int,
) -> Option<MapError> {
    if end < area.start {
        Some(MapError::InvalidRange)
    } else {
        insert_refusal(
            table,
            free,
            if end < area.end { end } else { area.end as int },
            end,
            area.map_type,
        )
    }
}

/// Why moving the end of the last area that begins at page `start` to page
/// `end` is refused, if it is.
pub open spec fn resize_with_start_refusal(
    areas: Seq<MapAreaView>,
    table: Map<usize, PageTableEntry>,
    free: nat,
    start: usize,
    end: int,
) -> Option<MapError> {
    if !has_area_starting_at(areas, start) {
        Some(MapError::NoSuchArea)
    } else {
        resize_refusal(table, free, areas[last_starting_at(areas, start)], end)
    }
}

impl MapArea {
    /// The mathematical content of the area.
    pub closed spec fn view(&self) -> MapAreaView {
        MapAreaView {
            start: self.start_vpn,
            end: self.end_vpn,
            map_type: self.map_type,
            perm: self.perm,
            frames: self.frames@,
        }
    }

    /// First page of the area.
    pub fn start(&self) -> (vpn: VirtPageNum)
        ensures
            vpn.0 == self@.start,
    {
        VirtPageNum(self.start_vpn)
    }

    /// One past the last page of the area.
    pub fn end(&self) -> (vpn: VirtPageNum)
        ensures
            vpn.0 == self@.end,
    {
        VirtPageNum(self.end_vpn)
    }

    /// How the pages of the area get their frames.
    pub fn map_type(&self) -> (t: MapType)
        ensures
            t == self@.map_type,
    {
        self.map_type
    }

    /// What may be done with the pages of the area.
    pub fn permission(&self) -> (perm: MapPermission)
        ensures
            perm == self@.perm,
    {
        self.perm
    }
}

/// The address space of one task.
pub struct MemorySet {
    page_table: PageTable,
    areas: Vec<MapArea>,
}

impl MemorySet {
    /// The areas, in the order in which they were inserted.
    pub closed spec fn areas(&self) -> Seq<MapAreaView> {
        Seq::new(self.areas@.len(), |i: int| self.areas@[i]@)
    }

    /// The translator's mapping from virtual page numbers to entries.
    pub closed spec fn table(&self) -> Map<usize, PageTableEntry> {
        self.page_table@
    }

    /// The frame that identifies the translator.
    pub closed spec fn root(&self) -> PhysPageNum {
        self.page_table.root()
    }

    /// The invariant of the address space.
    pub open spec fn wf(&self) -> bool {
        address_space_wf(self.areas(), self.table())
    }

    /// The frames that the areas own.
    pub open spec fn owned(&self) -> Set<usize> {
        owned_frames(self.areas())
    }

    /// Whether every owned frame is allocated in `frames`.
    pub open spec fn backed_by(&self, frames: &StackFrameAllocator) -> bool {
        self.owned().subset_of(frames.allocated())
    }

    /// An address space without areas, whose translator is identified by
    /// frame `root_ppn`.
    pub fn new_bare(root_ppn: PhysPageNum) -> (ms: Self)
        ensures
            ms.wf(),
            ms.areas() == Seq::<MapAreaView>::empty(),
            ms.table() == Map::<usize, PageTableEntry>::empty(),
            ms.owned() == Set::<usize>::empty(),
            ms.root() == root_ppn,
    {
        let ms = MemorySet { page_table: PageTable::new(root_ppn), areas: Vec::new() };
        ms
    }

    /// The token of the address space: the number of its translator's root
    /// frame.
    pub fn token(&self) -> (t: usize)
        ensures
            t == self.root().0,
    {
        self.page_table.token()
    }

    /// Looks up the translator entry of `vpn`.
    pub fn translate(&self, vpn: VirtPageNum) -> (r: Option<PageTableEntry>)
        ensures
            r == (if self.table().contains_key(vpn.0) {
                Some(self.table()[vpn.0])
            } else {
                None::<PageTableEntry>
            }),
    {
        self.page_table.translate(vpn)
    }

    /// The number of areas.
    pub fn area_count(&self) -> (n: usize)
        ensures
            n == self.areas().len(),
    {
        self.areas.len()
    }

    /// The `i`-th area in insertion order.
    pub fn area(&self, i: usize) -> (a: &MapArea)
        requires
            i < self.areas().len(),
        ensures
            a@ == self.areas()[i as int],
    {
        &self.areas[i]
    }

    /// Inserts an area over the pages `[floor(start_va), ceil(end_va))`, all
    /// or nothing: on refusal neither the address space nor the allocator
    /// changes.
    #[verifier::loop_isolation(false)]
    fn insert_area(
        &mut self,
        frames: &mut StackFrameAllocator,
        start_va: VirtAddr,
        end_va: VirtAddr,
        map_type: MapType,
        perm: MapPermission,
    ) -> (r: Result<(), MapError>)
        requires
            old(self).wf(),
            old(frames).wf(),
            old(self).backed_by(old(frames)),
        ensures
            final(self).wf(),
            final(frames).wf(),
            final(self).backed_by(final(frames)),
            final(self).root() == old(self).root(),
            final(frames).range_start() == old(frames).range_start(),
            final(frames).range_end() == old(frames).range_end(),
            r == (match insert_refusal(
                old(self).table(),
                old(frames).free_count(),
                page_floor(start_va.0 as int),
                page_ceil(end_va.0 as int),
                map_type,
            ) {
                Some(e) => Err::<(), MapError>(e),
                None => Ok::<(), MapError>(()),
            }),
            r.is_err() ==> ({
                &&& final(self).areas() == old(self).areas()
                &&& final(self).table() == old(self).table()
                &&& final(frames).allocated() == old(frames).allocated()
                &&& final(frames).free_count() == old(frames).free_count()
            }),
            r.is_ok() ==> ({
                let area = final(self).areas().last();
                &&& final(self).areas() == old(self).areas().push(area)
                &&& final(self).table() == table_with(old(self).table(), area)
                &&& area.start == page_floor(start_va.0 as int)
                &&& area.end == page_ceil(end_va.0 as int)
                &&& area.map_type == map_type
                &&& area.perm == perm
                &&& area.wf()
                &&& area.frames.no_duplicates()
                &&& area.frame_set().disjoint(old(frames).allocated())
                &&& final(frames).allocated() == old(frames).allocated().union(area.frame_set())
                &&& final(frames).free_count() == old(frames).free_count() - area.frames.len()
                &&& final(self).owned() == old(self).owned().union(area.frame_set())
            }),
    {
        let s: usize = start_va.floor().0;
        let e: usize = end_va.ceil().0;
        if s > e {
            return Err(MapError::InvalidRange);
        }
        let framed: bool = map_type == MapType::Framed;
        if framed && frames.available() < e - s {
            return Err(MapError::OutOfFrames);
        }
        let ghost pre = *self;
        let ghost pre_frames = *frames;
        let mut v: usize = s;
        while v < e
            invariant
                s <= v <= e,
                forall|u: usize| s <= u < v ==> !self.table().contains_key(u),
            decreases e - v,
        {
            if self.page_table.translate(VirtPageNum(v)).is_some() {
                return Err(MapError::AlreadyMapped);
            }
            v += 1;
        }
        let mut fr: Vec<usize> = Vec::new();
        v = s;
        while v < e
            invariant
                s <= v <= e,
                framed == (map_type == MapType::Framed),
                self.areas == pre.areas,
                self.root() == pre.root(),
                frames.wf(),
                frames.range_start() == pre_frames.range_start(),
                frames.range_end() == pre_frames.range_end(),
                framed ==> fr@.len() == v - s,
                !framed ==> fr@.len() == 0,
                fr@.no_duplicates(),
                forall|j: int|
                    0 <= j < fr@.len() ==> !pre_frames.allocated().contains(#[trigger] fr@[j]),
                forall|p: usize|
                    frames.allocated().contains(p) <==> pre_frames.allocated().contains(p)
                        || fr@.contains(p),
                frames.free_count() == pre_frames.free_count() - fr@.len(),
                framed ==> pre_frames.free_count() >= e - s,
                self.table() == table_with(
                    pre.table(),
                    MapAreaView { start: s, end: v, map_type, perm, frames: fr@ },
                ),
                forall|u: usize| s <= u < e ==> !pre.table().contains_key(u),
            decreases e - v,
        {
            let ghost fr_before = fr@;
            let p: usize = if framed {
                let got = frames.alloc_frame();
                let p: usize = got.unwrap().0;
                fr.push(p);
                proof {
                    assert forall|q: usize|
                        frames.allocated().contains(q) <==> pre_frames.allocated().contains(q)
                            || fr@.contains(q) by {
                        if fr_before.contains(q) {
                            let j = choose|j: int| 0 <= j < fr_before.len() && fr_before[j] == q;
                            assert(fr@[j] == q);
                        }
                        if q == p {
                            assert(fr@[fr_before.len() as int] == p);
                        }
                    }
                }
                p
            } else {
                v
            };
            self.page_table.map(VirtPageNum(v), PhysPageNum(p), perm);
            v += 1;
        }
        let ghost area = MapAreaView { start: s, end: e, map_type, perm, frames: fr@ };
        self.areas.push(MapArea { start_vpn: s, end_vpn: e, map_type, perm, frames: fr });
        proof {
            assert(self.areas() =~= pre.areas().push(area));
            lemma_insert_keeps_wf(pre.areas(), pre.table(), area);
        }
        Ok(())
    }

    /// Maps the pages `[floor(start_va), ceil(end_va))`, each to a frame of
    /// its own taken from `frames`, and records them as a new framed area.
    /// All or nothing: where the end lies before the start, too few frames
    /// are free or any page of the range is mapped already, the call is
    /// refused and nothing changes.
    pub fn insert_framed_area(
        &mut self,
        frames: &mut StackFrameAllocator,
        start_va: VirtAddr,
        end_va: VirtAddr,
        perm: MapPermission,
    ) -> (r: Result<(), MapError>)
        requires
            old(self).wf(),
            old(frames).wf(),
            old(self).backed_by(old(frames)),
        ensures
            final(self).wf(),
            final(frames).wf(),
            final(self).backed_by(final(frames)),
            final(self).root() == old(self).root(),
            final(frames).range_start() == old(frames).range_start(),
            final(frames).range_end() == old(frames).range_end(),
            r == (match insert_refusal(
                old(self).table(),
                old(frames).free_count(),
                page_floor(start_va.0 as int),
                page_ceil(end_va.0 as int),
                MapType::Framed,
            ) {
                Some(e) => Err::<(), MapError>(e),
                None => Ok::<(), MapError>(()),
            }),
            r.is_err() ==> ({
                &&& final(self).areas() == old(self).areas()
                &&& final(self).table() == old(self).table()
                &&& final(frames).allocated() == old(frames).allocated()
                &&& final(frames).free_count() == old(frames).free_count()
            }),
            r.is_ok() ==> ({
                let area = final(self).areas().last();
                &&& final(self).areas() == old(self).areas().push(area)
                &&& final(self).table() == table_with(old(self).table(), area)
                &&& area.start == page_floor(start_va.0 as int)
                &&& area.end == page_ceil(end_va.0 as int)
                &&& area.map_type == MapType::Framed
                &&& area.perm == perm
                &&& area.wf()
                &&& area.frames.no_duplicates()
                &&& area.frame_set().disjoint(old(frames).allocated())
                &&& final(frames).allocated() == old(frames).allocated().union(area.frame_set())
                &&& final(frames).free_count() == old(frames).free_count() - area.frames.len()
                &&& final(self).owned() == old(self).owned().union(area.frame_set())
            }),
    {
        self.insert_area(frames, start_va, end_va, MapType::Framed, perm)
    }

    /// Maps the pages `[floor(start_va), ceil(end_va))`, each to the frame
    /// with its own number, and records them as a new identical area. No
    /// frame is allocated. All or nothing, as `insert_framed_area`.
    pub fn insert_identical_area(
        &mut self,
        frames: &mut StackFrameAllocator,
        start_va: VirtAddr,
        end_va: VirtAddr,
        perm: MapPermission,
    ) -> (r: Result<(), MapError>)
        requires
            old(self).wf(),
            old(frames).wf(),
            old(self).backed_by(old(frames)),
        ensures
            final(self).wf(),
            final(frames).wf(),
            final(self).backed_by(final(frames)),
            final(self).root() == old(self).root(),
            final(frames).range_start() == old(frames).range_start(),
            final(frames).range_end() == old(frames).range_end(),
            final(frames).allocated() == old(frames).allocated(),
            final(frames).free_count() == old(frames).free_count(),
            final(self).owned() == old(self).owned(),
            r == (match insert_refusal(
                old(self).table(),
                old(frames).free_count(),
                page_floor(start_va.0 as int),
                page_ceil(end_va.0 as int),
                MapType::Identical,
            ) {
                Some(e) => Err::<(), MapError>(e),
                None => Ok::<(), MapError>(()),
            }),
            r.is_err() ==> ({
                &&& final(self).areas() == old(self).areas()
                &&& final(self).table() == old(self).table()
            }),
            r.is_ok() ==> ({
                let area = final(self).areas().last();
                &&& final(self).areas() == old(self).areas().push(area)
                &&& final(self).table() == table_with(old(self).table(), area)
                &&& area == (MapAreaView {
                    start: page_floor(start_va.0 as int) as usize,
                    end: page_ceil(end_va.0 as int) as usize,
                    map_type: MapType::Identical,
                    perm,
                    frames: Seq::<usize>::empty(),
                })
            }),
    {
        let r = self.insert_area(frames, start_va, end_va, MapType::Identical, perm);
        proof {
            if r.is_ok() {
                let area = self.areas().last();
                assert(area.frames =~= Seq::<usize>::empty());
            }
        }
        r
    }

    /// Unmaps the pages of the area at position `idx`, releases its frames
    /// and takes it out of the list.
    #[verifier::loop_isolation(false)]
    fn remove_area_at(&mut self, frames: &mut StackFrameAllocator, idx: usize)
        requires
            old(self).wf(),
            old(frames).wf(),
            old(self).backed_by(old(frames)),
            idx < old(self).areas().len(),
        ensures
            final(self).wf(),
            final(frames).wf(),
            final(self).backed_by(final(frames)),
            final(self).root() == old(self).root(),
            final(frames).range_start() == old(frames).range_start(),
            final(frames).range_end() == old(frames).range_end(),
            final(self).areas() == old(self).areas().remove(idx as int),
            final(self).table() == table_without(old(self).table(), old(self).areas()[idx as int]),
            final(frames).allocated() == old(frames).allocated().difference(
                old(self).areas()[idx as int].frame_set(),
            ),
            final(frames).free_count() == old(frames).free_count()
                + old(self).areas()[idx as int].frames.len(),
            final(self).owned() == old(self).owned().difference(
                old(self).areas()[idx as int].frame_set(),
            ),
    {
        let ghost pre = *self;
        let ghost pre_frames = *frames;
        let ghost area = pre.areas()[idx as int];
        proof {
            lemma_remove_keeps_wf(pre.areas(), pre.table(), idx as int);
        }
        let s: usize = self.areas[idx].start_vpn;
        let e: usize = self.areas[idx].end_vpn;
        let framed: bool = self.areas[idx].map_type == MapType::Framed;
        let mut v: usize = s;
        while v < e
            invariant
                s <= v <= e,
                self.areas == pre.areas,
                self.root() == pre.root(),
                frames.wf(),
                frames.range_start() == pre_frames.range_start(),
                frames.range_end() == pre_frames.range_end(),
                self.table() == table_without(
                    pre.table(),
                    MapAreaView {
                        start: s,
                        end: v,
                        map_type: area.map_type,
                        perm: area.perm,
                        frames: area.frames.take(if framed { v - s } else { 0 }),
                    },
                ),
                frames.allocated() == pre_frames.allocated().difference(
                    (MapAreaView {
                        start: s,
                        end: v,
                        map_type: area.map_type,
                        perm: area.perm,
                        frames: area.frames.take(if framed { v - s } else { 0 }),
                    }).frame_set(),
                ),
                frames.free_count() == pre_frames.free_count() + (if framed { v - s } else { 0 }),
            decreases e - v,
        {
            let ghost part = MapAreaView {
                start: s,
                end: v,
                map_type: area.map_type,
                perm: area.perm,
                frames: area.frames.take(if framed { v - s } else { 0 }),
            };
            let ghost next = MapAreaView {
                start: s,
                end: (v + 1) as usize,
                map_type: area.map_type,
                perm: area.perm,
                frames: area.frames.take(if framed { v + 1 - s } else { 0 }),
            };
            assert(area.contains(v));
            self.page_table.unmap(VirtPageNum(v));
            if framed {
                let p: usize = self.areas[idx].frames[v - s];
                proof {
                    if part.frame_set().contains(p) {
                        let j = choose|j: int| 0 <= j < part.frames.len() && part.frames[j] == p;
                        assert(area.frames[j] == p);
                    }
                }
                frames.free_frame(PhysPageNum(p));
                proof {
                    assert forall|q: usize|
                        next.frame_set().contains(q) <==> part.frame_set().contains(q) || q
                            == p by {
                        if part.frames.contains(q) {
                            let j = choose|j: int|
                                0 <= j < part.frames.len() && part.frames[j] == q;
                            assert(next.frames[j] == q);
                        }
                        assert(next.frames[part.frames.len() as int] == p);
                    }
                }
            }
            v += 1;
        }
        proof {
            assert(area.frames.take(if framed { e - s } else { 0 }) =~= area.frames);
        }
        self.areas.remove(idx);
        proof {
            assert(self.areas() =~= pre.areas().remove(idx as int));
        }
    }

    /// Moves the end of the area at position `idx` to page `new_end`: the
    /// pages that it gains are mapped, those that it loses are unmapped and
    /// their frames freed. All or nothing.
    #[verifier::loop_isolation(false)]
    fn resize_area_at(
        &mut self,
        frames: &mut StackFrameAllocator,
        idx: usize,
        new_end: VirtPageNum,
    ) -> (r: Result<(), MapError>)
        requires
            old(self).wf(),
            old(frames).wf(),
            old(self).backed_by(old(frames)),
            idx < old(self).areas().len(),
        ensures
            final(self).wf(),
            final(frames).wf(),
            final(self).backed_by(final(frames)),
            final(self).root() == old(self).root(),
            final(frames).range_start() == old(frames).range_start(),
            final(frames).range_end() == old(frames).range_end(),
            r == (match resize_refusal(
                old(self).table(),
                old(frames).free_count(),
                old(self).areas()[idx as int],
                new_end.0 as int,
            ) {
                Some(e) => Err::<(), MapError>(e),
                None => Ok::<(), MapError>(()),
            }),
            r.is_err() ==> ({
                &&& final(self).areas() == old(self).areas()
                &&& final(self).table() == old(self).table()
                &&& final(frames).allocated() == old(frames).allocated()
                &&& final(frames).free_count() == old(frames).free_count()
            }),
            r.is_ok() ==> ({
                let area = old(self).areas()[idx as int];
                let next = final(self).areas()[idx as int];
                &&& final(self).areas() == old(self).areas().update(idx as int, next)
                &&& is_resized(area, next)
                &&& next.end == new_end.0
                &&& final(self).table() == table_replaced(old(self).table(), area, next)
                &&& next.frames.no_duplicates()
                &&& forall|k: int|
                    area.frames.len() <= k < next.frames.len() ==> !old(
                        frames,
                    ).allocated().contains(#[trigger] next.frames[k])
                &&& final(frames).allocated() == old(frames).allocated().difference(
                    area.frame_set(),
                ).union(next.frame_set())
                &&& final(frames).free_count() + next.frames.len() == old(frames).free_count()
                    + area.frames.len()
                &&& final(self).owned() == old(self).owned().difference(area.frame_set()).union(
                    next.frame_set(),
                )
            }),
    {
        let ghost pre = *self;
        let ghost pre_frames = *frames;
        let ghost area = pre.areas()[idx as int];
        proof {
            lemma_remove_keeps_wf(pre.areas(), pre.table(), idx as int);
        }
        let s: usize = self.areas[idx].start_vpn;
        let e: usize = self.areas[idx].end_vpn;
        let framed: bool = self.areas[idx].map_type == MapType::Framed;
        let perm: MapPermission = self.areas[idx].perm;
        let e2: usize = new_end.0;
        if e2 < s {
            return Err(MapError::InvalidRange);
        }
        if e2 >= e {
            if framed && frames.available() < e2 - e {
                return Err(MapError::OutOfFrames);
            }
            let mut v: usize = e;
            while v < e2
                invariant
                    e <= v <= e2,
                    forall|u: usize| e <= u < v ==> !self.table().contains_key(u),
                decreases e2 - v,
            {
                if self.page_table.translate(VirtPageNum(v)).is_some() {
                    return Err(MapError::AlreadyMapped);
                }
                v += 1;
            }
            v = e;
            proof {
                assert(area.frame_set().subset_of(pre_frames.allocated()));
            }
            while v < e2
                invariant
                    e <= v <= e2,
                    self.root() == pre.root(),
                    self.areas@.len() == pre.areas@.len(),
                    forall|i: int|
                        0 <= i < self.areas@.len() && i != idx ==> self.areas@[i] == pre.areas@[i],
                    self.areas@[idx as int].start_vpn == s,
                    self.areas@[idx as int].end_vpn == e,
                    self.areas@[idx as int].map_type == area.map_type,
                    self.areas@[idx as int].perm == perm,
                    framed ==> self.areas@[idx as int].frames@.len() == v - s,
                    !framed ==> self.areas@[idx as int].frames@.len() == 0,
                    self.areas@[idx as int].frames@.take(area.frames.len() as int) == area.frames,
                    self.areas@[idx as int].frames@.no_duplicates(),
                    forall|j: int|
                        area.frames.len() <= j < self.areas@[idx as int].frames@.len()
                            ==> !pre_frames.allocated().contains(
                            #[trigger] self.areas@[idx as int].frames@[j],
                        ),
                    self.table() == table_with(
                        pre.table(),
                        MapAreaView {
                            start: s,
                            end: v,
                            map_type: area.map_type,
                            perm,
                            frames: self.areas@[idx as int].frames@,
                        },
                    ),
                    frames.wf(),
                    frames.range_start() == pre_frames.range_start(),
                    frames.range_end() == pre_frames.range_end(),
                    frames.allocated() == pre_frames.allocated().union(
                        (MapAreaView {
                            start: s,
                            end: v,
                            map_type: area.map_type,
                            perm,
                            frames: self.areas@[idx as int].frames@,
                        }).frame_set(),
                    ),
                    frames.free_count() + self.areas@[idx as int].frames@.len()
                        == pre_frames.free_count() + area.frames.len(),
                    framed ==> pre_frames.free_count() >= e2 - e,
                decreases e2 - v,
            {
                let ghost fr_before = self.areas@[idx as int].frames@;
                let ghost part = MapAreaView {
                    start: s,
                    end: v,
                    map_type: area.map_type,
                    perm,
                    frames: fr_before,
                };
                let p: usize = if framed {
                    let got = frames.alloc_frame();
                    let p: usize = got.unwrap().0;
                    self.areas[idx].frames.push(p);
                    proof {
                        let fr = self.areas@[idx as int].frames@;
                        assert(fr == fr_before.push(p));
                        assert(fr.take(area.frames.len() as int) =~= fr_before.take(
                            area.frames.len() as int,
                        ));
                        assert(!part.frame_set().contains(p));
                        assert(fr[fr_before.len() as int] == p);
                    }
                    p
                } else {
                    v
                };
                let ghost next = MapAreaView {
                    start: s,
                    end: (v + 1) as usize,
                    map_type: area.map_type,
                    perm,
                    frames: self.areas@[idx as int].frames@,
                };
                self.page_table.map(VirtPageNum(v), PhysPageNum(p), perm);
                proof {
                    let entry = PageTableEntry { ppn: PhysPageNum(p), perm };
                    assert forall|q: usize|
                        next.frame_set().contains(q) <==> part.frame_set().contains(q) || (framed
                            && q == p) by {
                        if framed {
                            if fr_before.contains(q) {
                                let j = choose|j: int|
                                    0 <= j < fr_before.len() && fr_before[j] == q;
                                assert(next.frames[j] == q);
                            }
                            if next.frames.contains(q) && q != p {
                                let j = choose|j: int|
                                    0 <= j < next.frames.len() && next.frames[j] == q;
                                assert(fr_before[j] == q);
                            }
                        }
                    }
                }
                v += 1;
            }
            self.areas[idx].end_vpn = e2;
        } else {
            let mut v: usize = e;
            proof {
                assert(area.frames.take(area.frames.len() as int) =~= area.frames);
            }
            while v > e2
                invariant
                    s <= e2 <= v <= e,
                    self.root() == pre.root(),
                    self.areas@.len() == pre.areas@.len(),
                    forall|i: int|
                        0 <= i < self.areas@.len() && i != idx ==> self.areas@[i] == pre.areas@[i],
                    self.areas@[idx as int].start_vpn == s,
                    self.areas@[idx as int].end_vpn == e,
                    self.areas@[idx as int].map_type == area.map_type,
                    self.areas@[idx as int].perm == perm,
                    self.areas@[idx as int].frames@ == area.frames.take(
                        if framed { v - s } else { 0 },
                    ),
                    self.table() == table_without(
                        pre.table(),
                        MapAreaView {
                            start: v,
                            end: e,
                            map_type: area.map_type,
                            perm,
                            frames: area.frames.skip(if framed { v - s } else { 0 }),
                        },
                    ),
                    frames.wf(),
                    frames.range_start() == pre_frames.range_start(),
                    frames.range_end() == pre_frames.range_end(),
                    frames.allocated() == pre_frames.allocated().difference(
                        (MapAreaView {
                            start: v,
                            end: e,
                            map_type: area.map_type,
                            perm,
                            frames: area.frames.skip(if framed { v - s } else { 0 }),
                        }).frame_set(),
                    ),
                    frames.free_count() + self.areas@[idx as int].frames@.len()
                        == pre_frames.free_count() + area.frames.len(),
                decreases v,
            {
                let ghost gone = MapAreaView {
                    start: v,
                    end: e,
                    map_type: area.map_type,
                    perm,
                    frames: area.frames.skip(if framed { v - s } else { 0 }),
                };
                v -= 1;
                let ghost next_gone = MapAreaView {
                    start: v,
                    end: e,
                    map_type: area.map_type,
                    perm,
                    frames: area.frames.skip(if framed { v - s } else { 0 }),
                };
                assert(area.contains(v));
                self.page_table.unmap(VirtPageNum(v));
                if framed {
                    let got = self.areas[idx].frames.pop();
                    let p: usize = got.unwrap();
                    proof {
                        if gone.frame_set().contains(p) {
                            let j = choose|j: int|
                                0 <= j < gone.frames.len() && gone.frames[j] == p;
                            assert(area.frames[v - s + 1 + j] == p);
                        }
                        assert(next_gone.frames[0] == p);
                        assert forall|q: usize|
                            next_gone.frame_set().contains(q) <==> gone.frame_set().contains(q)
                                || q == p by {
                            if gone.frames.contains(q) {
                                let j = choose|j: int|
                                    0 <= j < gone.frames.len() && gone.frames[j] == q;
                                assert(next_gone.frames[j + 1] == q);
                            }
                            if next_gone.frames.contains(q) && q != p {
                                let j = choose|j: int|
                                    0 <= j < next_gone.frames.len() && next_gone.frames[j] == q;
                                assert(gone.frames[j - 1] == q);
                            }
                        }
                    }
                    frames.free_frame(PhysPageNum(p));
                }
            }
            self.areas[idx].end_vpn = e2;
        }
        proof {
            let next = self.areas()[idx as int];
            assert(self.areas() =~= pre.areas().update(idx as int, next));
            lemma_resize_keeps_wf(pre.areas(), pre.table(), idx as int, next);
            if e2 >= e {
                assert(self.table() =~= table_replaced(pre.table(), area, next));
            } else {
                let gone = MapAreaView {
                    start: e2,
                    end: e,
                    map_type: area.map_type,
                    perm,
                    frames: area.frames.skip(if framed { e2 - s } else { 0 }),
                };
                assert(self.table() =~= table_replaced(pre.table(), area, next)) by {
                    assert forall|u: usize| next.contains(u) implies pre.table().contains_key(u)
                        && pre.table()[u] == next.entry(u) by {
                        assert(pre.areas()[idx as int].contains(u));
                    }
                }
                assert forall|q: usize|
                    frames.allocated().contains(q) == pre_frames.allocated().difference(
                        area.frame_set(),
                    ).union(next.frame_set()).contains(q) by {
                    if next.frame_set().contains(q) {
                        let j = choose|j: int| 0 <= j < next.frames.len() && next.frames[j] == q;
                        assert(area.frames[j] == q);
                        if gone.frame_set().contains(q) {
                            let l = choose|l: int|
                                0 <= l < gone.frames.len() && gone.frames[l] == q;
                            assert(area.frames[e2 - s + l] == q);
                        }
                    }
                    if area.frame_set().contains(q) && !next.frame_set().contains(q) {
                        let j = choose|j: int| 0 <= j < area.frames.len() && area.frames[j] == q;
                        if j >= next.frames.len() {
                            assert(gone.frames[j - (e2 - s)] == q);
                        }
                    }
                }
            }
        }
        Ok(())
    }

    /// Moves the end of the area that begins exactly at `start_vpn` to page
    /// `new_end`: the pages that the area gains are mapped, to fresh frames
    /// if it is framed, and the pages that it loses are unmapped and their
    /// frames freed. Where several areas begin at that page, the most
    /// recently inserted one is resized. All or nothing: the call is
    /// refused, with nothing changed, where no area begins there, the new
    /// end lies before the first page, too few frames are free, or a page
    /// that the area would gain is mapped already.
    #[verifier::loop_isolation(false)]
    pub fn resize_area_with_start_vpn(
        &mut self,
        frames: &mut StackFrameAllocator,
        start_vpn: VirtPageNum,
        new_end: VirtPageNum,
    ) -> (r: Result<(), MapError>)
        requires
            old(self).wf(),
            old(frames).wf(),
            old(self).backed_by(old(frames)),
        ensures
            final(self).wf(),
            final(frames).wf(),
            final(self).backed_by(final(frames)),
            final(self).root() == old(self).root(),
            final(frames).range_start() == old(frames).range_start(),
            final(frames).range_end() == old(frames).range_end(),
            r == (match resize_with_start_refusal(
                old(self).areas(),
                old(self).table(),
                old(frames).free_count(),
                start_vpn.0,
                new_end.0 as int,
            ) {
                Some(e) => Err::<(), MapError>(e),
                None => Ok::<(), MapError>(()),
            }),
            r.is_err() ==> ({
                &&& final(self).areas() == old(self).areas()
                &&& final(self).table() == old(self).table()
                &&& final(frames).allocated() == old(frames).allocated()
                &&& final(frames).free_count() == old(frames).free_count()
            }),
            r.is_ok() ==> ({
                let idx = last_starting_at(old(self).areas(), start_vpn.0);
                let area = old(self).areas()[idx];
                let next = final(self).areas()[idx];
                &&& is_last_starting_at(old(self).areas(), start_vpn.0, idx)
                &&& final(self).areas() == old(self).areas().update(idx, next)
                &&& is_resized(area, next)
                &&& next.end == new_end.0
                &&& final(self).table() == table_replaced(old(self).table(), area, next)
                &&& next.frames.no_duplicates()
                &&& forall|k: int|
                    area.frames.len() <= k < next.frames.len() ==> !old(
                        frames,
                    ).allocated().contains(#[trigger] next.frames[k])
                &&& final(frames).allocated() == old(frames).allocated().difference(
                    area.frame_set(),
                ).union(next.frame_set())
                &&& final(frames).free_count() + next.frames.len() == old(frames).free_count()
                    + area.frames.len()
                &&& final(self).owned() == old(self).owned().difference(area.frame_set()).union(
                    next.frame_set(),
                )
            }),
    {
        let mut i: usize = self.areas.len();
        while i > 0
            invariant
                i <= self.areas().len(),
                *self == *old(self),
                *frames == *old(frames),
                forall|j: int|
                    i <= j < self.areas().len() ==> (#[trigger] self.areas()[j]).start
                        != start_vpn.0,
            decreases i,
        {
            i -= 1;
            if self.areas[i].start_vpn == start_vpn.0 {
                proof {
                    lemma_last_starting_at_unique(self.areas(), start_vpn.0, i as int);
                }
                return self.resize_area_at(frames, i, new_end);
            }
        }
        Err(MapError::NoSuchArea)
    }

    /// Removes the area that begins exactly at `start_vpn`: unmaps its pages,
    /// releases its frames and takes it out of the list. An area is never
    /// split or shrunk. Where several areas begin at that page (all but one
    /// of them are then empty), the most recently inserted one is removed.
    /// Refused, with nothing changed, where no area begins there.
    #[verifier::loop_isolation(false)]
    pub fn remove_area_with_start_vpn(
        &mut self,
        frames: &mut StackFrameAllocator,
        start_vpn: VirtPageNum,
    ) -> (r: Result<(), MapError>)
        requires
            old(self).wf(),
            old(frames).wf(),
            old(self).backed_by(old(frames)),
        ensures
            final(self).wf(),
            final(frames).wf(),
            final(self).backed_by(final(frames)),
            final(self).root() == old(self).root(),
            final(frames).range_start() == old(frames).range_start(),
            final(frames).range_end() == old(frames).range_end(),
            r == (if has_area_starting_at(old(self).areas(), start_vpn.0) {
                Ok::<(), MapError>(())
            } else {
                Err::<(), MapError>(MapError::NoSuchArea)
            }),
            r.is_err() ==> ({
                &&& final(self).areas() == old(self).areas()
                &&& final(self).table() == old(self).table()
                &&& final(frames).allocated() == old(frames).allocated()
                &&& final(frames).free_count() == old(frames).free_count()
            }),
            r.is_ok() ==> ({
                let idx = last_starting_at(old(self).areas(), start_vpn.0);
                let area = old(self).areas()[idx];
                &&& is_last_starting_at(old(self).areas(), start_vpn.0, idx)
                &&& final(self).areas() == old(self).areas().remove(idx)
                &&& final(self).table() == table_without(old(self).table(), area)
                &&& final(frames).allocated() == old(frames).allocated().difference(
                    area.frame_set(),
                )
                &&& final(frames).free_count() == old(frames).free_count() + area.frames.len()
                &&& final(self).owned() == old(self).owned().difference(area.frame_set())
            }),
    {
        let mut i: usize = self.areas.len();
        while i > 0
            invariant
                i <= self.areas().len(),
                *self == *old(self),
                *frames == *old(frames),
                forall|j: int|
                    i <= j < self.areas().len() ==> (#[trigger] self.areas()[j]).start
                        != start_vpn.0,
            decreases i,
        {
            i -= 1;
            if self.areas[i].start_vpn == start_vpn.0 {
                proof {
                    lemma_last_starting_at_unique(self.areas(), start_vpn.0, i as int);
                }
                self.remove_area_at(frames, i);
                return Ok(());
            }
        }
        Err(MapError::NoSuchArea)
    }

    /// Releases the whole address space: every area is removed, every page
    /// unmapped and every owned frame given back.
    pub fn recycle_data_pages(&mut self, frames: &mut StackFrameAllocator)
        requires
            old(self).wf(),
            old(frames).wf(),
            old(self).backed_by(old(frames)),
        ensures
            final(self).wf(),
            final(frames).wf(),
            final(self).root() == old(self).root(),
            final(frames).range_start() == old(frames).range_start(),
            final(frames).range_end() == old(frames).range_end(),
            final(self).areas() == Seq::<MapAreaView>::empty(),
            final(self).table() == Map::<usize, PageTableEntry>::empty(),
            final(self).owned() == Set::<usize>::empty(),
            final(frames).allocated() == old(frames).allocated().difference(old(self).owned()),
            final(frames).free_count() == old(frames).free_count() + frame_total(
                old(self).areas(),
            ),
    {
        while self.areas.len() > 0
            invariant
                self.wf(),
                frames.wf(),
                self.backed_by(frames),
                self.root() == old(self).root(),
                frames.range_start() == old(frames).range_start(),
                frames.range_end() == old(frames).range_end(),
                self.owned().subset_of(old(self).owned()),
                frames.allocated() == old(frames).allocated().difference(old(self).owned()).union(
                    self.owned(),
                ),
                frames.free_count() + frame_total(self.areas()) == old(frames).free_count()
                    + frame_total(old(self).areas()),
            decreases self.areas().len(),
        {
            let last: usize = self.areas.len() - 1;
            proof {
                lemma_remove_keeps_wf(self.areas(), self.table(), last as int);
            }
            self.remove_area_at(frames, last);
        }
    }

    /// Translates the virtual bytes `[base, base + len)` into page-local
    /// pieces of physical memory, one per page touched, in order. A page
    /// counts only if it is mapped with at least the permissions `required`:
    /// the result stops before the first page that is not, so it is shorter
    /// than `len` bytes exactly if some touched page is not accessible. A
    /// range that runs past the end of the address space has no pieces.
    pub fn translate_bytes(&self, base: usize, len: usize, required: MapPermission) -> (r: Vec<
        PhysRange,
    >)
        ensures
            base + len > usize::MAX ==> r@.len() == 0,
            base + len <= usize::MAX ==> is_accessible_prefix(
                self.table(),
                base as int,
                len as int,
                required,
                r@.len() as int,
            ),
            base + len <= usize::MAX ==> r@ == pieces(
                self.table(),
                base as int,
                len as int,
                r@.len() as int,
            ),
    {
        let mut out: Vec<PhysRange> = Vec::new();
        if len == 0 {
            return out;
        }
        if base > usize::MAX - len {
            return out;
        }
        let end: usize = base + len;
        let first: usize = base / PAGE_SIZE;
        let last: usize = (end - 1) / PAGE_SIZE;
        let mut vpn: usize = first;
        while vpn <= last
            invariant
                0 < len,
                end == base + len,
                first == page_floor(base as int),
                last == page_floor(end - 1),
                first <= vpn <= last + 1,
                out@ == pieces(self.table(), base as int, len as int, vpn - first),
                forall|u: int|
                    first <= u < vpn ==> #[trigger] accessible(self.table(), u, required),
            decreases last + 1 - vpn,
        {
            let entry = self.page_table.translate(VirtPageNum(vpn));
            let ok: bool = match entry {
                Some(e) => e.perm.contains(required),
                None => false,
            };
            if !ok {
                return out;
            }
            let page_base: usize = vpn * PAGE_SIZE;
            let lo: usize = if vpn == first {
                base - page_base
            } else {
                0
            };
            let hi: usize = if vpn == last {
                end - page_base
            } else {
                PAGE_SIZE
            };
            out.push(PhysRange { ppn: entry.unwrap().ppn, start: lo, end: hi });
            vpn += 1;
        }
        out
    }
}

} // verus!
