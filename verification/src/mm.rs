//! A logical model of an address space: which virtual pages are mapped, by which
//! framed region, and with which permission bits.
//!
//! Physical frames and page-table pages belong to the memory subsystem of the
//! platform. The process subsystem decides over this model, and the platform makes
//! the page tables follow it.

use vstd::prelude::*;
use crate::config::PAGE_SIZE;

verus! {

/// Page-table flag: the entry is valid.
pub const PTE_V: u8 = 0b0000_0001;

/// Permission bit: readable.
pub const MAP_PERM_R: u8 = 0b0000_0010;

/// Permission bit: writable.
pub const MAP_PERM_W: u8 = 0b0000_0100;

/// Permission bit: executable.
pub const MAP_PERM_X: u8 = 0b0000_1000;

/// Permission bit: accessible from user mode.
pub const MAP_PERM_U: u8 = 0b0001_0000;

/// Number of the page that holds address `va`.
pub open spec fn spec_page_floor(va: int) -> int {
    va / (PAGE_SIZE as int)
}

/// Number of the first page that starts at or after address `va`.
pub open spec fn spec_page_ceil(va: int) -> int {
    (va + PAGE_SIZE - 1) / (PAGE_SIZE as int)
}

/// Number of the page that holds address `va`.
pub fn page_floor(va: usize) -> (vpn: usize)
    ensures
        vpn == spec_page_floor(va as int),
{
    va / PAGE_SIZE
}

/// Number of the first page that starts at or after address `va`.
pub fn page_ceil(va: usize) -> (vpn: usize)
    ensures
        vpn == spec_page_ceil(va as int),
{
    let q: usize = va / PAGE_SIZE;
    if va % PAGE_SIZE == 0 {
        q
    } else {
        q + 1
    }
}

/// A framed region: the pages `start_vpn <= vpn < end_vpn`, all with permission
/// bits `perm`.
#[derive(Clone, Copy, Debug, PartialEq, Eq, Structural)]
pub struct MapArea {
    pub start_vpn: usize,
    pub end_vpn: usize,
    pub perm: u8,
}

impl MapArea {
    /// Whether page `vpn` lies in this region.
    pub open spec fn contains(self, vpn: int) -> bool {
        self.start_vpn <= vpn < self.end_vpn
    }

    /// Whether this region and `other` share no page.
    pub open spec fn disjoint(self, other: MapArea) -> bool {
        forall|vpn: int| !(#[trigger] self.contains(vpn) && other.contains(vpn))
    }
}

/// What a page-table lookup yields for a mapped page.
#[derive(Clone, Copy, Debug, PartialEq, Eq, Structural)]
pub struct PageTableEntry {
    pub flags: u8,
}

impl PageTableEntry {
    pub open spec fn spec_is_valid(&self) -> bool {
        self.flags & PTE_V != 0
    }

    /// Whether the valid flag is set.
    #[verifier::when_used_as_spec(spec_is_valid)]
    pub fn is_valid(&self) -> (r: bool)
        ensures
            r == self.spec_is_valid(),
    {
        self.flags & PTE_V != 0
    }
}

/// The mathematical content of a [`MemorySet`].
pub struct MemorySetView {
    /// The page-table token under which the hardware knows this address space.
    pub token: usize,
    /// The framed regions, in the order in which they were inserted.
    pub areas: Seq<MapArea>,
}

impl MemorySetView {
    /// Whether some region holds page `vpn`.
    pub open spec fn mapped(self, vpn: int) -> bool {
        exists|i: int| 0 <= i < self.areas.len() && (#[trigger] self.areas[i]).contains(vpn)
    }

    /// Whether none of the pages `start <= vpn < end` is mapped.
    pub open spec fn range_free(self, start: int, end: int) -> bool {
        forall|vpn: int| start <= vpn < end ==> !self.mapped(vpn)
    }

    /// Whether all of the pages `start <= vpn < end` are mapped.
    pub open spec fn range_mapped(self, start: int, end: int) -> bool {
        forall|vpn: int| start <= vpn < end ==> self.mapped(vpn)
    }

    /// No two regions share a page.
    pub open spec fn wf(self) -> bool {
        forall|i: int, j: int|
            0 <= i < self.areas.len() && 0 <= j < self.areas.len() && i != j ==> (
            #[trigger] self.areas[i]).disjoint(#[trigger] self.areas[j])
    }

    /// The permission bits under which page `vpn` is mapped, if it is.
    pub open spec fn translation(self, vpn: int) -> Option<u8> {
        if self.mapped(vpn) {
            Some(self.areas[choose|i: int| 0 <= i < self.areas.len() && (#[trigger] self.areas[i]).contains(vpn)].perm)
        } else {
            None
        }
    }

    /// This address space with `area` inserted after the others.
    pub open spec fn insert(self, area: MapArea) -> MemorySetView {
        MemorySetView { areas: self.areas.push(area), ..self }
    }

    /// This address space without the regions that start at page `vpn`: the one
    /// that holds the page, if there is one, and those without pages.
    pub open spec fn remove_start(self, vpn: int) -> MemorySetView {
        self.remove_starts(vpn, vpn + 1)
    }

    /// This address space without the regions that start at one of the pages
    /// `start <= vpn < end`; the others stay, in their order.
    pub open spec fn remove_starts(self, start: int, end: int) -> MemorySetView {
        MemorySetView { areas: without_starts(self.areas, start, end), ..self }
    }

    /// Whether a region starts at one of the pages `start <= vpn < end`.
    pub open spec fn starts_within(self, start: int, end: int) -> bool {
        exists|i: int|
            0 <= i < self.areas.len() && start <= (#[trigger] self.areas[i]).start_vpn < end
    }

    /// This address space without any region.
    pub open spec fn clear(self) -> MemorySetView {
        MemorySetView { areas: Seq::empty(), ..self }
    }
}

/// Whether `area` starts at one of the pages `start <= vpn < end`.
pub open spec fn starts_in(area: MapArea, start: int, end: int) -> bool {
    start <= area.start_vpn < end
}

/// `areas` without the regions that start at one of the pages
/// `start <= vpn < end`; the others in their order.
pub open spec fn without_starts(areas: Seq<MapArea>, start: int, end: int) -> Seq<MapArea>
    decreases areas.len(),
{
    if areas.len() == 0 {
        areas
    } else if starts_in(areas.last(), start, end) {
        without_starts(areas.drop_last(), start, end)
    } else {
        without_starts(areas.drop_last(), start, end).push(areas.last())
    }
}

/// What is left is what was there and does not start in the range: each region
/// that is left was there, and each region that was there and does not start in
/// the range is left.
pub proof fn lemma_without_starts(areas: Seq<MapArea>, start: int, end: int)
    ensures
        without_starts(areas, start, end).len() <= areas.len(),
        forall|i: int|
            0 <= i < without_starts(areas, start, end).len() ==> !starts_in(
                #[trigger] without_starts(areas, start, end)[i],
                start,
                end,
            ) && areas.contains(without_starts(areas, start, end)[i]),
        forall|j: int|
            0 <= j < areas.len() && !starts_in(#[trigger] areas[j], start, end)
                ==> without_starts(areas, start, end).contains(areas[j]),
    decreases areas.len(),
{
    let left = without_starts(areas, start, end);
    if areas.len() > 0 {
        let front = areas.drop_last();
        let rest = without_starts(front, start, end);
        lemma_without_starts(front, start, end);
        assert forall|i: int| 0 <= i < left.len() implies !starts_in(#[trigger] left[i], start, end)
            && areas.contains(left[i]) by {
            if i < rest.len() {
                assert(left[i] == rest[i]);
                let j = choose|j: int| 0 <= j < front.len() && front[j] == rest[i];
                assert(areas[j] == left[i]);
            } else {
                assert(areas[areas.len() - 1] == left[i]);
            }
        }
        assert forall|j: int|
            0 <= j < areas.len() && !starts_in(#[trigger] areas[j], start, end) implies left.contains(
            areas[j],
        ) by {
            if j < front.len() {
                assert(front[j] == areas[j]);
                let i = choose|i: int| 0 <= i < rest.len() && rest[i] == front[j];
                assert(left[i] == areas[j]);
            } else {
                assert(left[left.len() - 1] == areas[j]);
            }
        }
    }
}

/// Where no region starts in the range, nothing is removed.
pub proof fn lemma_without_starts_nothing(areas: Seq<MapArea>, start: int, end: int)
    requires
        forall|i: int| 0 <= i < areas.len() ==> !starts_in(#[trigger] areas[i], start, end),
    ensures
        without_starts(areas, start, end) == areas,
    decreases areas.len(),
{
    if areas.len() > 0 {
        let front = areas.drop_last();
        assert forall|i: int| 0 <= i < front.len() implies !starts_in(
            #[trigger] front[i],
            start,
            end,
        ) by {
            assert(front[i] == areas[i]);
        }
        lemma_without_starts_nothing(front, start, end);
        assert(!starts_in(areas[areas.len() - 1], start, end));
        assert(front.push(areas.last()) =~= areas);
    }
}

/// Where one region starts in the range, and no other, that region is removed.
pub proof fn lemma_without_starts_one(areas: Seq<MapArea>, start: int, end: int, k: int)
    requires
        0 <= k < areas.len(),
        forall|i: int|
            0 <= i < areas.len() ==> (starts_in(#[trigger] areas[i], start, end) <==> i == k),
    ensures
        without_starts(areas, start, end) == areas.remove(k),
    decreases areas.len(),
{
    let front = areas.drop_last();
    assert forall|i: int| 0 <= i < front.len() implies (starts_in(#[trigger] front[i], start, end)
        <==> i == k) by {
        assert(front[i] == areas[i]);
    }
    if k == areas.len() - 1 {
        lemma_without_starts_nothing(front, start, end);
        assert(starts_in(areas[k], start, end));
        assert(areas.remove(k) =~= front);
    } else {
        lemma_without_starts_one(front, start, end, k);
        assert(!starts_in(areas[areas.len() - 1], start, end));
        assert(front.remove(k).push(areas.last()) =~= areas.remove(k));
    }
}

/// Removing what starts in a range and then what starts in the range that
/// follows is removing what starts in both.
pub proof fn lemma_without_starts_twice(areas: Seq<MapArea>, start: int, mid: int, end: int)
    requires
        start <= mid <= end,
    ensures
        without_starts(without_starts(areas, start, mid), mid, end) == without_starts(
            areas,
            start,
            end,
        ),
    decreases areas.len(),
{
    if areas.len() > 0 {
        let front = areas.drop_last();
        let last = areas.last();
        let rest = without_starts(front, start, mid);
        lemma_without_starts_twice(front, start, mid, end);
        if !starts_in(last, start, mid) {
            assert(rest.push(last).drop_last() =~= rest);
            assert(rest.push(last).last() == last);
        }
    }
}

/// An address space: a page-table token and the framed regions mapped under it.
pub struct MemorySet {
    pub token: usize,
    pub areas: Vec<MapArea>,
}

impl View for MemorySet {
    type V = MemorySetView;

    open spec fn view(&self) -> MemorySetView {
        MemorySetView { token: self.token, areas: self.areas@ }
    }
}

impl MemorySet {
    /// An address space without regions, known to the hardware as `token`.
    pub fn new_bare(token: usize) -> (ms: MemorySet)
        ensures
            ms@ == (MemorySetView { token, areas: Seq::empty() }),
            ms@.wf(),
    {
        MemorySet { token, areas: Vec::new() }
    }

    /// Whether no two regions share a page.
    pub fn is_wf(&self) -> (r: bool)
        ensures
            r == self@.wf(),
    {
        let n: usize = self.areas.len();
        let mut i: usize = 0;
        while i < n
            invariant
                i <= n,
                n == self.areas@.len(),
                forall|a: int, b: int|
                    0 <= a < i && a < b < n ==> (#[trigger] self.areas@[a]).disjoint(
                        #[trigger] self.areas@[b],
                    ),
            decreases n - i,
        {
            let first: MapArea = self.areas[i];
            let mut j: usize = i + 1;
            while j < n
                invariant
                    i < j <= n,
                    n == self.areas@.len(),
                    first == self.areas@[i as int],
                    forall|b: int|
                        i < b < j ==> first.disjoint(#[trigger] self.areas@[b]),
                decreases n - j,
            {
                let second: MapArea = self.areas[j];
                let apart: bool = first.start_vpn >= first.end_vpn || second.start_vpn
                    >= second.end_vpn || first.end_vpn <= second.start_vpn || second.end_vpn
                    <= first.start_vpn;
                if !apart {
                    proof {
                        let shared = if first.start_vpn >= second.start_vpn {
                            first.start_vpn as int
                        } else {
                            second.start_vpn as int
                        };
                        assert(first.contains(shared) && second.contains(shared));
                        assert(self@.areas[i as int] == first && self@.areas[j as int] == second);
                        assert(!self@.areas[i as int].disjoint(self@.areas[j as int]));
                    }
                    return false;
                }
                j += 1;
            }
            i += 1;
        }
        proof {
            assert forall|a: int, b: int| 0 <= a < n && 0 <= b < n && a != b implies (
            #[trigger] self.areas@[a]).disjoint(#[trigger] self.areas@[b]) by {
                if a < b {
                    assert(self.areas@[a].disjoint(self.areas@[b]));
                } else {
                    assert(self.areas@[b].disjoint(self.areas@[a]));
                }
            }
        }
        true
    }

    /// The page-table token.
    pub fn token(&self) -> (t: usize)
        ensures
            t == self@.token,
    {
        self.token
    }

    /// Looks page `vpn` up: if the page is mapped, an entry with the valid flag
    /// and the permission bits of the first region that holds the page; nothing
    /// otherwise.
    pub fn translate(&self, vpn: usize) -> (r: Option<PageTableEntry>)
        ensures
            r is Some <==> self@.mapped(vpn as int),
            r matches Some(pte) ==> pte.spec_is_valid() && exists|i: int|
                0 <= i < self@.areas.len() && (#[trigger] self@.areas[i]).contains(vpn as int)
                    && pte.flags == self@.areas[i].perm | PTE_V && forall|j: int|
                    0 <= j < i ==> !(#[trigger] self@.areas[j]).contains(vpn as int),
    {
        let mut i: usize = 0;
        while i < self.areas.len()
            invariant
                i <= self.areas.len(),
                forall|j: int| 0 <= j < i ==> !(#[trigger] self.areas@[j]).contains(vpn as int),
            decreases self.areas.len() - i,
        {
            let area: MapArea = self.areas[i];
            if area.start_vpn <= vpn && vpn < area.end_vpn {
                let perm: u8 = area.perm;
                let flags: u8 = perm | PTE_V;
                assert(flags & PTE_V != 0) by (bit_vector)
                    requires
                        flags == perm | PTE_V,
                ;
                assert(self@.areas[i as int].contains(vpn as int));
                return Some(PageTableEntry { flags });
            }
            i += 1;
        }
        None
    }

    /// Maps the pages from the one that holds `start_va` up to the first that
    /// starts at or after `end_va`, as one region with permission bits `perm`.
    pub fn insert_framed_area(&mut self, start_va: usize, end_va: usize, perm: u8)
        requires
            old(self)@.wf(),
            start_va <= end_va,
            old(self)@.range_free(
                spec_page_floor(start_va as int),
                spec_page_ceil(end_va as int),
            ),
        ensures
            final(self)@ == old(self)@.insert(
                MapArea {
                    start_vpn: spec_page_floor(start_va as int) as usize,
                    end_vpn: spec_page_ceil(end_va as int) as usize,
                    perm,
                },
            ),
            final(self)@.wf(),
    {
        let area = MapArea { start_vpn: page_floor(start_va), end_vpn: page_ceil(end_va), perm };
        proof {
            lemma_insert_wf(self@, area);
        }
        self.areas.push(area);
    }

    /// Unmaps the regions that start at page `start_vpn`: the one that holds the
    /// page, if there is one, and those without pages. The others stay, in
    /// their order.
    pub fn remove_area_with_start_vpn(&mut self, start_vpn: usize)
        requires
            old(self)@.wf(),
        ensures
            final(self)@ == old(self)@.remove_start(start_vpn as int),
            final(self)@.wf(),
    {
        let mut kept: Vec<MapArea> = Vec::new();
        let mut i: usize = 0;
        while i < self.areas.len()
            invariant
                i <= self.areas.len(),
                *self == *old(self),
                kept@ == without_starts(
                    self.areas@.subrange(0, i as int),
                    start_vpn as int,
                    start_vpn + 1,
                ),
            decreases self.areas.len() - i,
        {
            let area: MapArea = self.areas[i];
            proof {
                let next = self.areas@.subrange(0, i + 1);
                assert(next.drop_last() =~= self.areas@.subrange(0, i as int));
                assert(next.last() == area);
            }
            if area.start_vpn != start_vpn {
                kept.push(area);
            }
            i += 1;
        }
        proof {
            assert(self.areas@.subrange(0, i as int) =~= self.areas@);
            lemma_remove_starts_wf(self@, start_vpn as int, start_vpn + 1);
        }
        self.areas = kept;
    }

    /// Unmaps every region; the token stays.
    pub fn recycle_data_pages(&mut self)
        ensures
            final(self)@ == old(self)@.clear(),
            final(self)@.wf(),
    {
        self.areas.clear();
    }

    /// A copy of `user_space`, region for region, known to the hardware as `token`.
    pub fn from_existed_user(user_space: &MemorySet, token: usize) -> (ms: MemorySet)
        ensures
            ms@ == (MemorySetView { token, areas: user_space@.areas }),
    {
        let mut areas: Vec<MapArea> = Vec::new();
        let mut i: usize = 0;
        while i < user_space.areas.len()
            invariant
                i <= user_space.areas.len(),
                areas@ == user_space.areas@.subrange(0, i as int),
            decreases user_space.areas.len() - i,
        {
            areas.push(user_space.areas[i]);
            i += 1;
        }
        assert(areas@ == user_space.areas@);
        MemorySet { token, areas }
    }
}

/// Inserting a region over unmapped pages keeps the regions disjoint.
pub proof fn lemma_insert_wf(ms: MemorySetView, area: MapArea)
    requires
        ms.wf(),
        ms.range_free(area.start_vpn as int, area.end_vpn as int),
    ensures
        ms.insert(area).wf(),
{
    let after = ms.insert(area);
    assert forall|i: int, j: int|
        0 <= i < after.areas.len() && 0 <= j < after.areas.len() && i != j implies (
    #[trigger] after.areas[i]).disjoint(#[trigger] after.areas[j]) by {
        let n = ms.areas.len() as int;
        if i < n && j < n {
            assert(ms.areas[i].disjoint(ms.areas[j]));
        } else {
            let k = if i < n { i } else { j };
            assert forall|vpn: int| !(#[trigger] after.areas[i].contains(vpn)
                && after.areas[j].contains(vpn)) by {
                if area.contains(vpn) && ms.areas[k].contains(vpn) {
                    assert(ms.mapped(vpn));
                }
            }
        }
    }
}

/// Removing the regions that start in a range of pages keeps the others disjoint.
pub proof fn lemma_remove_starts_wf(ms: MemorySetView, start: int, end: int)
    requires
        ms.wf(),
    ensures
        ms.remove_starts(start, end).wf(),
        ms.remove_starts(start, end).token == ms.token,
    decreases ms.areas.len(),
{
    let areas = ms.areas;
    let left = without_starts(areas, start, end);
    if areas.len() > 0 {
        let n = areas.len() - 1;
        let front = MemorySetView { areas: areas.drop_last(), ..ms };
        assert(front.wf()) by {
            assert forall|i: int, j: int|
                0 <= i < front.areas.len() && 0 <= j < front.areas.len() && i != j implies (
            #[trigger] front.areas[i]).disjoint(#[trigger] front.areas[j]) by {
                assert(areas[i].disjoint(areas[j]));
            }
        }
        lemma_remove_starts_wf(front, start, end);
        lemma_without_starts(front.areas, start, end);
        let rest = without_starts(front.areas, start, end);
        assert(front.remove_starts(start, end).areas == rest);
        assert forall|i: int, j: int| 0 <= i < left.len() && 0 <= j < left.len() && i != j implies (
        #[trigger] left[i]).disjoint(#[trigger] left[j]) by {
            if i < rest.len() && j < rest.len() {
                assert(rest[i].disjoint(rest[j]));
            } else if i < rest.len() {
                let a = choose|a: int| 0 <= a < front.areas.len() && front.areas[a] == rest[i];
                assert(areas[a].disjoint(areas[n]));
            } else {
                let a = choose|a: int| 0 <= a < front.areas.len() && front.areas[a] == rest[j];
                assert(areas[n].disjoint(areas[a]));
            }
        }
    }
}

/// Removing the regions that start in a range of pages changes the translation
/// of no page, if none of the pages of the range was mapped: a region that
/// starts at a page that is not mapped holds no page.
pub proof fn lemma_remove_starts_free(ms: MemorySetView, start: int, end: int)
    requires
        ms.wf(),
        ms.range_free(start, end),
    ensures
        forall|vpn: int| ms.remove_starts(start, end).translation(vpn) == ms.translation(vpn),
{
    let less = ms.remove_starts(start, end);
    lemma_without_starts(ms.areas, start, end);
    assert forall|vpn: int| less.translation(vpn) == ms.translation(vpn) by {
        if ms.mapped(vpn) {
            let j = choose|j: int| 0 <= j < ms.areas.len() && (#[trigger] ms.areas[j]).contains(vpn);
            if starts_in(ms.areas[j], start, end) {
                assert(ms.areas[j].contains(ms.areas[j].start_vpn as int));
                assert(ms.mapped(ms.areas[j].start_vpn as int));
            }
            assert(less.areas.contains(ms.areas[j]));
            let i = choose|i: int| 0 <= i < less.areas.len() && less.areas[i] == ms.areas[j];
            assert(less.areas[i].contains(vpn));
            let i2 = choose|i2: int|
                0 <= i2 < less.areas.len() && (#[trigger] less.areas[i2]).contains(vpn);
            let j2 = choose|j2: int| 0 <= j2 < ms.areas.len() && ms.areas[j2] == less.areas[i2];
            if j2 != j {
                assert(ms.areas[j2].disjoint(ms.areas[j]));
            }
        } else {
            if less.mapped(vpn) {
                let i = choose|i: int|
                    0 <= i < less.areas.len() && (#[trigger] less.areas[i]).contains(vpn);
                let j = choose|j: int| 0 <= j < ms.areas.len() && ms.areas[j] == less.areas[i];
                assert(ms.areas[j].contains(vpn));
            }
        }
    }
}

/// After the regions that start in a range of pages are removed, no page is
/// mapped that a region held which started in the range.
pub proof fn lemma_remove_starts_unmaps(ms: MemorySetView, start: int, end: int, i: int, vpn: int)
    requires
        ms.wf(),
        0 <= i < ms.areas.len(),
        starts_in(ms.areas[i], start, end),
        ms.areas[i].contains(vpn),
    ensures
        !ms.remove_starts(start, end).mapped(vpn),
{
    let less = ms.remove_starts(start, end);
    lemma_without_starts(ms.areas, start, end);
    if less.mapped(vpn) {
        let a = choose|a: int| 0 <= a < less.areas.len() && (#[trigger] less.areas[a]).contains(vpn);
        let j = choose|j: int| 0 <= j < ms.areas.len() && ms.areas[j] == less.areas[a];
        if j != i {
            assert(ms.areas[j].disjoint(ms.areas[i]));
        }
    }
}

/// Removing a region keeps the others disjoint.
pub proof fn lemma_remove_wf(ms: MemorySetView, k: int)
    requires
        ms.wf(),
        0 <= k < ms.areas.len(),
    ensures
        (MemorySetView { areas: ms.areas.remove(k), ..ms }).wf(),
{
    let after = ms.areas.remove(k);
    assert forall|i: int, j: int| 0 <= i < after.len() && 0 <= j < after.len() && i != j implies (
    #[trigger] after[i]).disjoint(#[trigger] after[j]) by {
        let i0 = if i < k { i } else { i + 1 };
        let j0 = if j < k { j } else { j + 1 };
        assert(ms.areas[i0].disjoint(ms.areas[j0]));
    }
}

} // verus!
