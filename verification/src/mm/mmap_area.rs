//! Bookkeeping of the anonymous areas a process maps with `mmap`.
//!
//! Areas are kept ordered by their first page and are found by it. The pages
//! of an area are mapped and unmapped by the caller, following what these
//! functions decide.
use vstd::prelude::*;
use crate::config::PAGE_SIZE;
use crate::mm::address::{VirtAddr, VirtPageNum, va_limit, ceil_page};
use crate::mm::memory_set::MapPermission;

verus! {

/// An anonymous area: the pages `[start_vpn, end_vpn)` with a permission.
#[derive(Clone, Copy, PartialEq, Eq, Structural, Debug)]
pub struct MmapArea {
    /// The first page of the area.
    pub start_vpn: VirtPageNum,
    /// The page after the last one of the area.
    pub end_vpn: VirtPageNum,
    /// The permission of the pages.
    pub permission: MapPermission,
}

/// The areas are ordered by their first page, and no two start at the same page.
pub open spec fn areas_sorted(s: Seq<MmapArea>) -> bool {
    forall|i: int, j: int| 0 <= i < j < s.len() ==> (#[trigger] s[i]).start_vpn.0 < (#[trigger] s[j]).start_vpn.0
}

/// The areas share no page.
pub open spec fn areas_disjoint(s: Seq<MmapArea>) -> bool {
    forall|i: int, j: int| 0 <= i < j < s.len() ==> (#[trigger] s[i]).end_vpn.0 <= (#[trigger] s[j]).start_vpn.0
}

/// The area shares a page with `[start, end)`.
pub open spec fn area_overlaps(a: MmapArea, start: u64, end: u64) -> bool {
    a.start_vpn.0 < end && start < a.end_vpn.0
}

/// The position at which an area starting at page `s` belongs: after every
/// area starting below `s`.
pub open spec fn lower_bound(areas: Seq<MmapArea>, s: u64) -> int {
    choose|i: int|
        0 <= i <= areas.len() && (forall|j: int| 0 <= j < i ==> (#[trigger] areas[j]).start_vpn.0 < s) && (i
            < areas.len() ==> areas[i].start_vpn.0 >= s)
}

/// The overlap test on the neighbours of `[start, end)`: the last area that
/// starts at or before `start` reaches past it, or the first area that starts
/// at or after `start` starts before `end`.
pub open spec fn neighbours_overlap(areas: Seq<MmapArea>, start: u64, end: u64) -> bool {
    let i = lower_bound(areas, start);
    let prev_hit = if i < areas.len() && areas[i].start_vpn.0 == start {
        areas[i].end_vpn.0 > start
    } else {
        i > 0 && areas[i - 1].end_vpn.0 > start
    };
    prev_hit || (i < areas.len() && areas[i].start_vpn.0 < end)
}

/// Every area holds at least one page.
pub open spec fn areas_nonempty(s: Seq<MmapArea>) -> bool {
    forall|i: int| 0 <= i < s.len() ==> (#[trigger] s[i]).start_vpn.0 < s[i].end_vpn.0
}

/// The areas after `a` is recorded: it replaces an area starting at the
/// same page, or is inserted in order.
pub open spec fn areas_insert(areas: Seq<MmapArea>, a: MmapArea) -> Seq<MmapArea> {
    let i = lower_bound(areas, a.start_vpn.0);
    if i < areas.len() && areas[i].start_vpn.0 == a.start_vpn.0 {
        areas.update(i, a)
    } else {
        areas.insert(i, a)
    }
}

/// The page range `mmap` and `munmap` use for `[start, start + len)`:
/// the end is taken as an SV39 address and rounded up to a page.
pub open spec fn request_pages(start: u64, len: u64) -> (u64, u64) {
    let end = (start + len) % va_limit();
    ((start / PAGE_SIZE) as u64, ceil_page(end) as u64)
}

/// `mmap` and `munmap` can compute the page range of `[start, start + len)`.
pub open spec fn request_ok(start: u64, len: u64) -> bool {
    &&& start + len <= u64::MAX
    &&& (start + len) % va_limit() >= 1
    &&& request_pages(start, len).0 <= request_pages(start, len).1
}

/// Whether `mmap` and `munmap` can compute the page range of
/// `[start, start + len)`.
pub fn request_fits(start: VirtAddr, len: u64) -> (r: bool)
    ensures
        r == request_ok(start.0, len),
{
    if start.0 > u64::MAX - len {
        return false;
    }
    let end = VirtAddr::from(start.0 + len);
    if end.0 == 0 {
        return false;
    }
    proof {
        vstd::arithmetic::div_mod::lemma_mod_bound((start.0 + len) as int, va_limit());
    }
    start.floor().0 <= end.ceil().0
}

/// The anonymous areas of a process.
pub struct MmapAreaManager {
    areas: Vec<MmapArea>,
}

impl View for MmapAreaManager {
    type V = Seq<MmapArea>;

    closed spec fn view(&self) -> Seq<MmapArea> {
        self.areas@
    }
}

impl MmapAreaManager {
    /// The areas are ordered by their first page.
    pub open spec fn wf(&self) -> bool {
        areas_sorted(self@)
    }

    /// A manager with no area.
    pub fn new() -> (r: Self)
        ensures
            r.wf(),
            r@ == Seq::<MmapArea>::empty(),
    {
        Self { areas: Vec::new() }
    }

    /// The position of the first area that starts at or after `s`.
    fn find_lower_bound(&self, s: u64) -> (r: usize)
        requires
            self.wf(),
        ensures
            r == lower_bound(self@, s),
            r <= self@.len(),
            forall|j: int| 0 <= j < r ==> (#[trigger] self@[j]).start_vpn.0 < s,
            r < self@.len() ==> self@[r as int].start_vpn.0 >= s,
    {
        let mut i: usize = 0;
        while i < self.areas.len() && self.areas[i].start_vpn.0 < s
            invariant
                i <= self@.len(),
                forall|j: int| 0 <= j < i ==> (#[trigger] self@[j]).start_vpn.0 < s,
            decreases self@.len() - i,
        {
            i = i + 1;
        }
        proof {
            let k = lower_bound(self@, s);
            assert(0 <= i <= self@.len() && (forall|j: int| 0 <= j < i ==> (#[trigger] self@[j]).start_vpn.0 < s)
                && (i < self@.len() ==> self@[i as int].start_vpn.0 >= s));
            assert(k == i) by {
                if k < i {
                    assert(self@[k].start_vpn.0 < s);
                } else if k > i {
                    assert(self@[i as int].start_vpn.0 < s);
                }
            }
        }
        i
    }

    /// Whether the pages `[start_vpn, end_vpn)` overlap the area that starts
    /// last at or before `start_vpn`, or the first one at or after it.
    pub fn check_overlap(&self, start_vpn: VirtPageNum, end_vpn: VirtPageNum) -> (r: bool)
        requires
            self.wf(),
        ensures
            r == neighbours_overlap(self@, start_vpn.0, end_vpn.0),
    {
        let i = self.find_lower_bound(start_vpn.0);
        if i < self.areas.len() && self.areas[i].start_vpn.0 == start_vpn.0 {
            if self.areas[i].end_vpn.0 > start_vpn.0 {
                return true;
            }
        } else if i > 0 {
            if self.areas[i - 1].end_vpn.0 > start_vpn.0 {
                return true;
            }
        }
        if i < self.areas.len() {
            if self.areas[i].start_vpn.0 < end_vpn.0 {
                return true;
            }
        }
        false
    }

    /// Records the area `a`, replacing an area that starts at the same page.
    fn insert_area(&mut self, a: MmapArea)
        requires
            old(self).wf(),
        ensures
            final(self).wf(),
            final(self)@ == areas_insert(old(self)@, a),
    {
        let i = self.find_lower_bound(a.start_vpn.0);
        if i < self.areas.len() && self.areas[i].start_vpn.0 == a.start_vpn.0 {
            self.areas.set(i, a);
        } else {
            self.areas.insert(i, a);
            proof {
                let s = self@;
                assert forall|x: int, y: int| 0 <= x < y < s.len() implies (#[trigger] s[x]).start_vpn.0 < (#[trigger] s[y]).start_vpn.0 by {
                    let o = old(self)@;
                    if y < i {
                        assert(s[x] == o[x] && s[y] == o[y]);
                    } else if y == i {
                        assert(s[x] == o[x]);
                    } else if x < i {
                        assert(s[x] == o[x] && s[y] == o[y - 1]);
                    } else if x == i {
                        assert(s[y] == o[y - 1]);
                    } else {
                        assert(s[x] == o[x - 1] && s[y] == o[y - 1]);
                    }
                }
            }
        }
    }

    /// Maps an anonymous area over `[start, start + len)`: returns 0 and
    /// records the pages `[floor(start), ceil(start + len))` when they overlap
    /// no neighbouring area, -1 when they do; an empty request does nothing
    /// and returns 0.
    pub fn mmap(&mut self, start: VirtAddr, len: u64, permission: MapPermission) -> (r: i64)
        requires
            old(self).wf(),
            len > 0 ==> request_ok(start.0, len),
        ensures
            final(self).wf(),
            len == 0 ==> r == 0 && final(self)@ == old(self)@,
            len > 0 ==> {
                let (s, e) = request_pages(start.0, len);
                &&& neighbours_overlap(old(self)@, s, e) ==> r == -1 && final(self)@ == old(self)@
                &&& !neighbours_overlap(old(self)@, s, e) ==> r == 0 && final(self)@ == areas_insert(
                    old(self)@,
                    MmapArea { start_vpn: VirtPageNum(s), end_vpn: VirtPageNum(e), permission },
                )
            },
    {
        if len == 0 {
            return 0;
        }
        let end = VirtAddr::from(start.0 + len);
        let start_vpn = start.floor();
        proof {
            vstd::arithmetic::div_mod::lemma_mod_bound((start.0 + len) as int, va_limit());
        }
        let end_vpn = end.ceil();
        if self.check_overlap(start_vpn, end_vpn) {
            return -1;
        }
        self.insert_area(MmapArea { start_vpn, end_vpn, permission });
        0
    }

    /// Unmaps the area that starts at `floor(start)`: returns 0 and forgets
    /// it when it ends exactly at `ceil(start + len)`, -1 otherwise; an empty
    /// request does nothing and returns 0.
    pub fn munmap(&mut self, start: VirtAddr, len: u64) -> (r: i64)
        requires
            old(self).wf(),
            len > 0 ==> request_ok(start.0, len),
        ensures
            final(self).wf(),
            len == 0 ==> r == 0 && final(self)@ == old(self)@,
            len > 0 ==> {
                let (s, e) = request_pages(start.0, len);
                let i = lower_bound(old(self)@, s);
                let found = i < old(self)@.len() && old(self)@[i].start_vpn.0 == s && old(self)@[i].end_vpn.0 == e;
                &&& found ==> r == 0 && final(self)@ == old(self)@.remove(i)
                &&& !found ==> r == -1 && final(self)@ == old(self)@
            },
    {
        if len == 0 {
            return 0;
        }
        let end = VirtAddr::from(start.0 + len);
        let start_vpn = start.floor();
        proof {
            vstd::arithmetic::div_mod::lemma_mod_bound((start.0 + len) as int, va_limit());
        }
        let end_vpn = end.ceil();
        let i = self.find_lower_bound(start_vpn.0);
        if i < self.areas.len() && self.areas[i].start_vpn.0 == start_vpn.0 {
            if self.areas[i].end_vpn.0 == end_vpn.0 {
                self.areas.remove(i);
                proof {
                    let s = self@;
                    let o = old(self)@;
                    assert forall|x: int, y: int| 0 <= x < y < s.len() implies (#[trigger] s[x]).start_vpn.0 < (#[trigger] s[y]).start_vpn.0 by {
                        if y < i {
                            assert(s[x] == o[x] && s[y] == o[y]);
                        } else if x < i {
                            assert(s[x] == o[x] && s[y] == o[y + 1]);
                        } else {
                            assert(s[x] == o[x + 1] && s[y] == o[y + 1]);
                        }
                    }
                }
                return 0;
            }
            return -1;
        }
        -1
    }

    /// The number of areas.
    pub fn count(&self) -> (r: usize)
        ensures
            r == self@.len(),
    {
        self.areas.len()
    }

    /// The area at position `i`, in the order of their first pages.
    pub fn get(&self, i: usize) -> (r: MmapArea)
        requires
            i < self@.len(),
        ensures
            r == self@[i as int],
    {
        self.areas[i]
    }

    /// Forgets every area and returns them, in the order of their first pages.
    pub fn clear(&mut self) -> (r: Vec<MmapArea>)
        ensures
            final(self).wf(),
            final(self)@ == Seq::<MmapArea>::empty(),
            r@ == old(self)@,
    {
        let mut taken: Vec<MmapArea> = Vec::new();
        core::mem::swap(&mut taken, &mut self.areas);
        taken
    }
}

/// On ordered, disjoint areas the neighbour test finds every overlap.
pub proof fn lemma_neighbours_overlap_complete(areas: Seq<MmapArea>, start: u64, end: u64)
    requires
        areas_sorted(areas),
        areas_disjoint(areas),
        areas_nonempty(areas),
        start < end,
    ensures
        neighbours_overlap(areas, start, end) == exists|j: int| 0 <= j < areas.len() && #[trigger] area_overlaps(areas[j], start, end),
{
    let i = lower_bound(areas, start);
    lemma_lower_bound(areas, start);
    let n = areas.len();
    let at = i < n && areas[i].start_vpn.0 == start;
    if exists|j: int| 0 <= j < n && #[trigger] area_overlaps(areas[j], start, end) {
        let j = choose|j: int| 0 <= j < n && #[trigger] area_overlaps(areas[j], start, end);
        if j < i {
            if at {
                assert(areas[j].end_vpn.0 <= areas[i].start_vpn.0);
            } else {
                if j < i - 1 {
                    assert(areas[j].end_vpn.0 <= areas[i - 1].start_vpn.0);
                    assert(areas[i - 1].start_vpn.0 < areas[i - 1].end_vpn.0);
                }
            }
        } else if j > i {
            assert(areas[i].start_vpn.0 < areas[j].start_vpn.0);
        }
    }
    if neighbours_overlap(areas, start, end) {
        if at && areas[i].end_vpn.0 > start {
            assert(area_overlaps(areas[i], start, end));
        } else if !at && i > 0 && areas[i - 1].end_vpn.0 > start {
            assert(area_overlaps(areas[i - 1], start, end));
        } else {
            assert(areas[i].start_vpn.0 < areas[i].end_vpn.0);
            assert(area_overlaps(areas[i], start, end));
        }
    }
}

/// `lower_bound` is the number of areas that start below `s`.
pub proof fn lemma_lower_bound(areas: Seq<MmapArea>, s: u64)
    requires
        areas_sorted(areas),
    ensures
        0 <= lower_bound(areas, s) <= areas.len(),
        forall|j: int| 0 <= j < lower_bound(areas, s) ==> (#[trigger] areas[j]).start_vpn.0 < s,
        lower_bound(areas, s) < areas.len() ==> areas[lower_bound(areas, s)].start_vpn.0 >= s,
        forall|j: int| lower_bound(areas, s) <= j < areas.len() ==> (#[trigger] areas[j]).start_vpn.0 >= s,
{
    let w = lower_bound_witness(areas, s);
    assert(0 <= w <= areas.len() && (forall|j: int| 0 <= j < w ==> (#[trigger] areas[j]).start_vpn.0 < s) && (w
        < areas.len() ==> areas[w].start_vpn.0 >= s));
    let i = lower_bound(areas, s);
    assert forall|j: int| i <= j < areas.len() implies (#[trigger] areas[j]).start_vpn.0 >= s by {
        if j > i {
            assert(areas[i].start_vpn.0 < areas[j].start_vpn.0);
        }
    }
}

/// A position with the properties `lower_bound` chooses exists.
pub proof fn lower_bound_witness(areas: Seq<MmapArea>, s: u64) -> (i: int)
    requires
        areas_sorted(areas),
    ensures
        0 <= i <= areas.len(),
        forall|j: int| 0 <= j < i ==> (#[trigger] areas[j]).start_vpn.0 < s,
        i < areas.len() ==> areas[i].start_vpn.0 >= s,
    decreases areas.len(),
{
    if areas.len() == 0 {
        0
    } else if areas.last().start_vpn.0 < s {
        assert forall|j: int| 0 <= j < areas.len() implies (#[trigger] areas[j]).start_vpn.0 < s by {
            if j < areas.len() - 1 {
                assert(areas[j].start_vpn.0 < areas[areas.len() - 1].start_vpn.0);
            }
        }
        areas.len() as int
    } else {
        let d = areas.drop_last();
        assert(areas_sorted(d)) by {
            assert forall|x: int, y: int| 0 <= x < y < d.len() implies (#[trigger] d[x]).start_vpn.0 < (#[trigger] d[y]).start_vpn.0 by {
                assert(d[x] == areas[x] && d[y] == areas[y]);
            }
        }
        let k = lower_bound_witness(d, s);
        assert forall|j: int| 0 <= j < k implies (#[trigger] areas[j]).start_vpn.0 < s by {
            assert(areas[j] == d[j]);
        }
        if k < d.len() {
            assert(areas[k] == d[k]);
        }
        k
    }
}

/// Unmapping what was just mapped gives back the areas as they were, when
/// no area started at that page before.
pub proof fn lemma_mmap_then_munmap(areas: Seq<MmapArea>, start: u64, len: u64, permission: MapPermission)
    requires
        areas_sorted(areas),
        len > 0,
        start + len < va_limit(),
        ({
            let (s, e) = request_pages(start, len);
            !neighbours_overlap(areas, s, e)
        }),
    ensures
        ({
            let (s, e) = request_pages(start, len);
            let a = MmapArea { start_vpn: VirtPageNum(s), end_vpn: VirtPageNum(e), permission };
            let after = areas_insert(areas, a);
            let i = lower_bound(after, s);
            &&& i < after.len() && after[i].start_vpn.0 == s && after[i].end_vpn.0 == e
            &&& after.remove(i) == areas
        }),
{
    let (s, e) = request_pages(start, len);
    let a = MmapArea { start_vpn: VirtPageNum(s), end_vpn: VirtPageNum(e), permission };
    let i = lower_bound(areas, s);
    lemma_lower_bound(areas, s);
    // no area starts at s, else the neighbour test would have found it (its
    // end is past s or it is empty and then it is a following neighbour).
    assert(!(i < areas.len() && areas[i].start_vpn.0 == s)) by {
        if i < areas.len() && areas[i].start_vpn.0 == s {
            assert(s < e) by {
                lemma_request_nonempty(start, len);
            }
        }
    }
    let after = areas.insert(i, a);
    assert(areas_insert(areas, a) == after);
    let i2 = lower_bound(after, s);
    assert(i2 == i) by {
        assert(0 <= i <= after.len() && (forall|j: int| 0 <= j < i ==> (#[trigger] after[j]).start_vpn.0 < s)
            && (i < after.len() ==> after[i].start_vpn.0 >= s)) by {
            assert forall|j: int| 0 <= j < i implies (#[trigger] after[j]).start_vpn.0 < s by {
                assert(after[j] == areas[j]);
            }
        }
        if i2 < i {
            assert(after[i2] == areas[i2]);
        } else if i2 > i {
            assert(after[i].start_vpn.0 < s);
        }
    }
    assert(after.remove(i) =~= areas);
}

/// The page range of a non-empty request is not empty.
pub proof fn lemma_request_nonempty(start: u64, len: u64)
    requires
        len > 0,
        start + len < va_limit(),
    ensures
        request_pages(start, len).0 < request_pages(start, len).1,
{
    vstd::arithmetic::div_mod::lemma_small_mod((start + len) as nat, va_limit() as nat);
    let e = start + len;
    assert((e + 4095) / 4096 > start / 4096) by (nonlinear_arith)
        requires
            e >= start + 1,
    {
        assert(e + 4095 >= start + 4096);
        vstd::arithmetic::div_mod::lemma_div_is_ordered(start + 4096, e + 4095, 4096);
        vstd::arithmetic::div_mod::lemma_fundamental_div_mod(start as int, 4096);
    }
}

} // verus!
