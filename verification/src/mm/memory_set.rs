//! Address spaces: map permissions, map areas, and the layouts of the
//! kernel's and of an application's address space.
use vstd::prelude::*;
use crate::config::{PAGE_SIZE, TRAMPOLINE, TRAP_CONTEXT_BASE, USER_STACK_SIZE, MEMORY_END, KERNEL_STACK_SIZE};
use crate::mm::address::{VirtAddr, VirtPageNum, PhysAddr, PhysPageNum, VPNRange, ceil_page, va_limit, pa_limit, sign_extend_va};
use crate::mm::page_table::PTEFlags;

verus! {

/// The permissions of a mapped area; the same bits as in a page-table entry:
/// readable, writable, executable, user-accessible.
#[derive(Clone, Copy, PartialEq, Eq, Structural, Debug)]
pub struct MapPermission {
    bits: u8,
}

impl View for MapPermission {
    type V = u8;

    closed spec fn view(&self) -> u8 {
        self.bits
    }
}

/// Bit of the readable permission.
pub const MAP_R: u8 = 2;
/// Bit of the writable permission.
pub const MAP_W: u8 = 4;
/// Bit of the executable permission.
pub const MAP_X: u8 = 8;
/// Bit of the user-accessible permission.
pub const MAP_U: u8 = 16;

#[allow(non_snake_case)]
impl MapPermission {
    /// The permission set with these bits, in specifications.
    pub closed spec fn from_bits_spec(bits: u8) -> MapPermission {
        MapPermission { bits: bits & 30u8 }
    }

    /// A permission set is determined by its bits.
    pub proof fn lemma_from_bits_spec(p: MapPermission, bits: u8)
        ensures
            MapPermission::from_bits_spec(bits)@ == bits & 30u8,
            p@ == bits & 30u8 ==> p == MapPermission::from_bits_spec(bits),
    {
    }

    /// The permission set with these bits, or `None` when a bit names no
    /// permission.
    pub fn from_bits(bits: u8) -> (r: Option<MapPermission>)
        ensures
            bits & !30u8 == 0 ==> (r matches Some(p) && p@ == bits),
            bits & !30u8 != 0 ==> r.is_none(),
    {
        if bits & !30 == 0 {
            Some(MapPermission { bits })
        } else {
            None
        }
    }

    /// The bits of the permission set.
    pub fn bits(&self) -> (r: u8)
        ensures
            r == self@,
    {
        self.bits
    }

    /// Readable.
    pub fn R() -> (r: MapPermission)
        ensures
            r@ == MAP_R,
    {
        MapPermission { bits: MAP_R }
    }

    /// Writable.
    pub fn W() -> (r: MapPermission)
        ensures
            r@ == MAP_W,
    {
        MapPermission { bits: MAP_W }
    }

    /// Executable.
    pub fn X() -> (r: MapPermission)
        ensures
            r@ == MAP_X,
    {
        MapPermission { bits: MAP_X }
    }

    /// Accessible from user mode.
    pub fn U() -> (r: MapPermission)
        ensures
            r@ == MAP_U,
    {
        MapPermission { bits: MAP_U }
    }

    /// The permissions set in either.
    pub fn union(self, other: MapPermission) -> (r: MapPermission)
        ensures
            r@ == self@ | other@,
    {
        MapPermission { bits: self.bits | other.bits }
    }

    /// Whether every permission of `other` is set here.
    pub fn contains(&self, other: MapPermission) -> (r: bool)
        ensures
            r == (self@ & other@ == other@),
    {
        (self.bits & other.bits) == other.bits
    }
}

/// How the pages of an area are backed: by the physical page of the same
/// number, or by frames allocated for the area.
#[derive(Clone, Copy, PartialEq, Eq, Structural, Debug)]
pub enum MapType {
    /// Virtual page `n` maps physical page `n`.
    Identical,
    /// Each page gets a frame of its own.
    Framed,
}

/// What a map area covers and how: its first page, the page past its last,
/// how its pages are backed and its permission bits.
#[derive(Clone, Copy, PartialEq, Eq, Structural, Debug)]
pub struct AreaView {
    /// First virtual page number.
    pub start: u64,
    /// Virtual page number one past the last.
    pub end: u64,
    /// How the pages are backed.
    pub map_type: MapType,
    /// Permission bits.
    pub perm: u8,
}

/// The area `MapArea::new` builds for `[start_va, end_va)`: from the page of
/// `start_va` to the page boundary at or above `end_va`. `None` where it
/// cannot build one: `end_va` is zero or too close to the top to round up, or
/// the start page lies past the end page.
pub open spec fn area_spec(start_va: u64, end_va: u64, map_type: MapType, perm: u8) -> Option<AreaView> {
    if end_va <= u64::MAX - PAGE_SIZE + 1 && start_va / PAGE_SIZE <= ceil_page(end_va as int) {
        Some(
            AreaView {
                start: (start_va / PAGE_SIZE) as u64,
                end: ceil_page(end_va as int) as u64,
                map_type,
                perm,
            },
        )
    } else {
        None
    }
}

/// The number of page-sized pieces `copy_data` cuts `len` bytes into: one
/// even for no data.
pub open spec fn chunk_count(len: int) -> int {
    if len == 0 {
        1
    } else {
        (len + PAGE_SIZE - 1) / PAGE_SIZE as int
    }
}

/// `n` pieces cover `len` bytes exactly when the last one starts before the
/// end of the data (or is the only one).
proof fn lemma_chunk_count_exact(len: int, n: int)
    requires
        0 <= len,
        1 <= n,
        n * PAGE_SIZE >= len,
        n == 1 || (n - 1) * PAGE_SIZE < len,
    ensures
        chunk_count(len) == n,
{
    if len > 0 {
        assert((len + 4095) / 4096 == n) by (nonlinear_arith)
            requires
                n * 4096 >= len,
                (n - 1) * 4096 < len || n == 1,
                len > 0,
                n >= 1,
        ;
    }
}

/// While the pieces so far end before the data does, more are to come.
proof fn lemma_chunk_count_exact_more(len: int, n: int)
    requires
        0 < len,
        1 <= n,
        n * PAGE_SIZE < len,
    ensures
        n < chunk_count(len),
{
    assert((len + 4095) / 4096 > n) by (nonlinear_arith)
        requires
            n * 4096 < len,
            n >= 1,
    ;
}

/// One page's share of data copied into an area: the bytes `[start, end)`
/// of the data go to the start of page `vpn`.
#[derive(Clone, Copy, PartialEq, Eq, Structural, Debug)]
pub struct DataChunk {
    /// Destination page.
    pub vpn: VirtPageNum,
    /// First byte of the piece in the data.
    pub start: usize,
    /// One past the last byte of the piece in the data.
    pub end: usize,
}

/// A contiguous range of virtual pages mapped the same way.
pub struct MapArea {
    vpn_range: VPNRange,
    map_type: MapType,
    map_perm: MapPermission,
}

impl View for MapArea {
    type V = AreaView;

    closed spec fn view(&self) -> AreaView {
        AreaView {
            start: self.vpn_range.start().0,
            end: self.vpn_range.end().0,
            map_type: self.map_type,
            perm: self.map_perm@,
        }
    }
}

impl MapArea {
    /// The area from the page of `start_va` up to the page boundary at or
    /// above `end_va`.
    pub fn new(start_va: VirtAddr, end_va: VirtAddr, map_type: MapType, map_perm: MapPermission) -> (r: Self)
        requires
            area_spec(start_va.0, end_va.0, map_type, map_perm@) is Some,
        ensures
            area_spec(start_va.0, end_va.0, map_type, map_perm@) == Some(r@),
    {
        let start_vpn = start_va.floor();
        let end_vpn = end_va.ceil();
        let vpn_range = VPNRange::new(start_vpn, end_vpn);
        MapArea { vpn_range, map_type, map_perm }
    }

    /// The pages of the area.
    pub fn vpn_range(&self) -> (r: VPNRange)
        ensures
            r.start().0 == self@.start,
            r.end().0 == self@.end,
    {
        self.vpn_range
    }

    /// How the pages are backed.
    pub fn map_type(&self) -> (r: MapType)
        ensures
            r == self@.map_type,
    {
        self.map_type
    }

    /// The permissions of the area.
    pub fn map_perm(&self) -> (r: MapPermission)
        ensures
            r@ == self@.perm,
    {
        self.map_perm
    }

    /// The page-table flags its pages are mapped with: the same bits as its
    /// permissions.
    pub fn pte_flags(&self) -> (r: PTEFlags)
        ensures
            r@ == self@.perm,
    {
        match PTEFlags::from_bits(self.map_perm.bits()) {
            Some(f) => f,
            None => PTEFlags::from_bits_truncate(self.map_perm.bits()),
        }
    }

    /// Moves the end of the area down to `new_end`; returns the pages that
    /// leave it, which are to be unmapped.
    pub fn shrink_to(&mut self, new_end: VirtPageNum) -> (r: VPNRange)
        requires
            old(self)@.start <= new_end.0 <= old(self)@.end,
        ensures
            final(self)@ == (AreaView { end: new_end.0, ..old(self)@ }),
            r.start() == new_end,
            r.end().0 == old(self)@.end,
    {
        let gone = VPNRange::new(new_end, self.vpn_range.get_end());
        self.vpn_range = VPNRange::new(self.vpn_range.get_start(), new_end);
        gone
    }

    /// Moves the end of the area up to `new_end`; returns the pages that
    /// join it, which are to be mapped.
    pub fn append_to(&mut self, new_end: VirtPageNum) -> (r: VPNRange)
        requires
            old(self)@.start <= old(self)@.end <= new_end.0,
        ensures
            final(self)@ == (AreaView { end: new_end.0, ..old(self)@ }),
            r.start().0 == old(self)@.end,
            r.end() == new_end,
    {
        let added = VPNRange::new(self.vpn_range.get_end(), new_end);
        self.vpn_range = VPNRange::new(self.vpn_range.get_start(), new_end);
        added
    }

    /// How `len` bytes of data are copied into a framed area: page by page
    /// from its first page, each page taking the next `PAGE_SIZE` bytes (the
    /// last page what is left).
    pub fn copy_data(&self, len: usize) -> (r: Vec<DataChunk>)
        requires
            self@.map_type == MapType::Framed,
            len + PAGE_SIZE <= usize::MAX,
            self@.start + chunk_count(len as int) <= self@.end,
        ensures
            r@.len() == chunk_count(len as int),
            forall|k: int|
                0 <= k < r@.len() ==> {
                    &&& (#[trigger] r@[k]).vpn.0 == self@.start + k
                    &&& r@[k].start == k * PAGE_SIZE
                    &&& r@[k].end == (if len < (k + 1) * PAGE_SIZE { len as int } else { (k + 1) * PAGE_SIZE })
                },
    {
        let page: usize = 4096;
        let mut chunks: Vec<DataChunk> = Vec::new();
        let mut start: usize = 0;
        let mut vpn = self.vpn_range.get_start();
        loop
            invariant_except_break
                vpn.0 == self@.start + chunks@.len(),
                chunks@.len() == 0 || start < len,
                chunks@.len() < chunk_count(len as int),
            invariant
                page == PAGE_SIZE,
                len + PAGE_SIZE <= usize::MAX,
                self@.start + chunk_count(len as int) <= self@.end,
                start == chunks@.len() * PAGE_SIZE,
                forall|k: int|
                    0 <= k < chunks@.len() ==> {
                        &&& (#[trigger] chunks@[k]).vpn.0 == self@.start + k
                        &&& chunks@[k].start == k * PAGE_SIZE
                        &&& chunks@[k].end == (if len < (k + 1) * PAGE_SIZE { len as int } else { (k + 1) * PAGE_SIZE })
                    },
            ensures
                chunks@.len() == chunk_count(len as int),
                forall|k: int|
                    0 <= k < chunks@.len() ==> {
                        &&& (#[trigger] chunks@[k]).vpn.0 == self@.start + k
                        &&& chunks@[k].start == k * PAGE_SIZE
                        &&& chunks@[k].end == (if len < (k + 1) * PAGE_SIZE { len as int } else { (k + 1) * PAGE_SIZE })
                    },
            decreases chunk_count(len as int) - chunks@.len(),
        {
            let end: usize = if len < start + page { len } else { start + page };
            chunks.push(DataChunk { vpn, start, end });
            start = start + page;
            if start >= len {
                proof {
                    lemma_chunk_count_exact(len as int, chunks@.len() as int);
                }
                break;
            }
            proof {
                lemma_chunk_count_exact_more(len as int, chunks@.len() as int);
            }
            vpn = VirtPageNum(vpn.0 + 1);
        }
        chunks
    }
}


/// `i` is the first area that starts at page `vpn`.
pub open spec fn is_first_area_at(areas: Seq<AreaView>, vpn: u64, i: int) -> bool {
    &&& 0 <= i < areas.len()
    &&& areas[i].start == vpn
    &&& forall|j: int| 0 <= j < i ==> areas[j].start != vpn
}

/// Some area starts at page `vpn`.
pub open spec fn has_area_at(areas: Seq<AreaView>, vpn: u64) -> bool {
    exists|i: int| 0 <= i < areas.len() && areas[i].start == vpn
}

/// The bookkeeping of an address space: its map areas, in the order they
/// were added. The page table that realizes them is kept beside it.
pub struct MemorySet {
    areas: Vec<MapArea>,
}

impl View for MemorySet {
    type V = Seq<AreaView>;

    closed spec fn view(&self) -> Seq<AreaView> {
        self.areas@.map_values(|a: MapArea| a@)
    }
}

impl MemorySet {
    /// An address space without areas.
    pub fn new_bare() -> (r: Self)
        ensures
            r@ == Seq::<AreaView>::empty(),
    {
        let r = MemorySet { areas: Vec::new() };
        assert(r@ =~= Seq::<AreaView>::empty());
        r
    }

    /// Adds an area.
    pub fn push(&mut self, map_area: MapArea)
        ensures
            final(self)@ == old(self)@.push(map_area@),
    {
        self.areas.push(map_area);
        assert(self@ =~= old(self)@.push(map_area@));
    }

    /// Adds a framed area over `[start_va, end_va)` with `permission`.
    pub fn insert_framed_area(&mut self, start_va: VirtAddr, end_va: VirtAddr, permission: MapPermission)
        requires
            area_spec(start_va.0, end_va.0, MapType::Framed, permission@) is Some,
        ensures
            final(self)@ == old(self)@.push(
                area_spec(start_va.0, end_va.0, MapType::Framed, permission@)->0,
            ),
    {
        let area = MapArea::new(start_va, end_va, MapType::Framed, permission);
        self.push(area);
    }

    /// The number of areas.
    pub fn area_count(&self) -> (r: usize)
        ensures
            r == self@.len(),
    {
        self.areas.len()
    }

    /// The area at `index`.
    pub fn area(&self, index: usize) -> (r: &MapArea)
        requires
            index < self@.len(),
        ensures
            r@ == self@[index as int],
    {
        &self.areas[index]
    }

    /// The index of the first area starting at page `vpn`, if any.
    pub fn find_area_at(&self, vpn: VirtPageNum) -> (r: Option<usize>)
        ensures
            r matches Some(i) ==> is_first_area_at(self@, vpn.0, i as int),
            r is None ==> !has_area_at(self@, vpn.0),
    {
        let mut i: usize = 0;
        while i < self.areas.len()
            invariant
                i <= self.areas@.len(),
                forall|j: int| 0 <= j < i ==> (#[trigger] self@[j]).start != vpn.0,
            decreases self.areas@.len() - i,
        {
            let start = self.areas[i].vpn_range.get_start();
            if start.0 == vpn.0 {
                return Some(i);
            }
            i = i + 1;
        }
        None
    }

    /// Moves the end of the first area starting at the page of `start` down
    /// to the page boundary at or above `new_end`, and returns the pages that
    /// leave it; `None` when no area starts there.
    pub fn shrink_to(&mut self, start: VirtAddr, new_end: VirtAddr) -> (r: Option<VPNRange>)
        requires
            forall|i: int|
                #[trigger] is_first_area_at(old(self)@, start.0 / PAGE_SIZE, i) ==> {
                    &&& new_end.0 <= u64::MAX - PAGE_SIZE + 1
                    &&& old(self)@[i].start <= ceil_page(new_end.0 as int) <= old(self)@[i].end
                },
        ensures
            !has_area_at(old(self)@, start.0 / PAGE_SIZE) ==> r is None && final(self)@ == old(self)@,
            r is Some ==> exists|i: int| #[trigger] is_first_area_at(old(self)@, start.0 / PAGE_SIZE, i),
            r is None ==> !has_area_at(old(self)@, start.0 / PAGE_SIZE) && final(self)@ == old(self)@,
            forall|i: int|
                #[trigger] is_first_area_at(old(self)@, start.0 / PAGE_SIZE, i) ==> {
                    &&& final(self)@ == old(self)@.update(
                        i,
                        AreaView { end: ceil_page(new_end.0 as int) as u64, ..old(self)@[i] },
                    )
                    &&& r matches Some(gone) && gone.start().0 == ceil_page(new_end.0 as int)
                        && gone.end().0 == old(self)@[i].end
                },
    {
        match self.find_area_at(start.floor()) {
            Some(i) => {
                let end_vpn = new_end.ceil();
                let mut area = self.areas.remove(i);
                let gone = area.shrink_to(end_vpn);
                self.areas.insert(i, area);
                proof {
                    assert forall|j: int| #[trigger] is_first_area_at(old(self)@, start.0 / PAGE_SIZE, j) implies j == i by {
                        if j < i {
                        } else if j > i {
                            assert(old(self)@[i as int].start == start.0 / PAGE_SIZE);
                        }
                    }
                    assert(self@ =~= old(self)@.update(
                        i as int,
                        AreaView { end: ceil_page(new_end.0 as int) as u64, ..old(self)@[i as int] },
                    ));
                }
                Some(gone)
            },
            None => None,
        }
    }

    /// Moves the end of the first area starting at the page of `start` up to
    /// the page boundary at or above `new_end`, and returns the pages that
    /// join it; `None` when no area starts there.
    pub fn append_to(&mut self, start: VirtAddr, new_end: VirtAddr) -> (r: Option<VPNRange>)
        requires
            forall|i: int|
                #[trigger] is_first_area_at(old(self)@, start.0 / PAGE_SIZE, i) ==> {
                    &&& new_end.0 <= u64::MAX - PAGE_SIZE + 1
                    &&& old(self)@[i].start <= old(self)@[i].end <= ceil_page(new_end.0 as int)
                },
        ensures
            !has_area_at(old(self)@, start.0 / PAGE_SIZE) ==> r is None && final(self)@ == old(self)@,
            r is Some ==> exists|i: int| #[trigger] is_first_area_at(old(self)@, start.0 / PAGE_SIZE, i),
            r is None ==> !has_area_at(old(self)@, start.0 / PAGE_SIZE) && final(self)@ == old(self)@,
            forall|i: int|
                #[trigger] is_first_area_at(old(self)@, start.0 / PAGE_SIZE, i) ==> {
                    &&& final(self)@ == old(self)@.update(
                        i,
                        AreaView { end: ceil_page(new_end.0 as int) as u64, ..old(self)@[i] },
                    )
                    &&& r matches Some(added) && added.start().0 == old(self)@[i].end
                        && added.end().0 == ceil_page(new_end.0 as int)
                },
    {
        match self.find_area_at(start.floor()) {
            Some(i) => {
                let end_vpn = new_end.ceil();
                let mut area = self.areas.remove(i);
                let added = area.append_to(end_vpn);
                self.areas.insert(i, area);
                proof {
                    assert forall|j: int| #[trigger] is_first_area_at(old(self)@, start.0 / PAGE_SIZE, j) implies j == i by {
                        if j < i {
                        } else if j > i {
                            assert(old(self)@[i as int].start == start.0 / PAGE_SIZE);
                        }
                    }
                    assert(self@ =~= old(self)@.update(
                        i as int,
                        AreaView { end: ceil_page(new_end.0 as int) as u64, ..old(self)@[i as int] },
                    ));
                }
                Some(added)
            },
            None => None,
        }
    }
}


/// The virtual address `VirtAddr::from(x)` keeps of `x`: its low 39 bits.
pub open spec fn va_of(x: u64) -> u64 {
    (x as int % va_limit()) as u64
}

/// Where the linker put the kernel's sections (symbol addresses).
#[derive(Clone, Copy, PartialEq, Eq, Structural, Debug)]
pub struct KernelLayout {
    /// Start of `.text`.
    pub stext: u64,
    /// End of `.text`.
    pub etext: u64,
    /// Start of `.rodata`.
    pub srodata: u64,
    /// End of `.rodata`.
    pub erodata: u64,
    /// Start of `.data`.
    pub sdata: u64,
    /// End of `.data`.
    pub edata: u64,
    /// Start of `.bss`, boot stack included.
    pub sbss_with_stack: u64,
    /// End of `.bss`.
    pub ebss: u64,
    /// End of the kernel image.
    pub ekernel: u64,
}

/// The kernel's areas, each mapped identically: `.text` readable and
/// executable, `.rodata` readable, `.data` and `.bss` readable and
/// writable, and the physical memory from the end of the kernel to
/// `MEMORY_END` readable and writable.
pub open spec fn kernel_area_plan(l: KernelLayout) -> Seq<Option<AreaView>> {
    seq![
        area_spec(va_of(l.stext), va_of(l.etext), MapType::Identical, MAP_R | MAP_X),
        area_spec(va_of(l.srodata), va_of(l.erodata), MapType::Identical, MAP_R),
        area_spec(va_of(l.sdata), va_of(l.edata), MapType::Identical, MAP_R | MAP_W),
        area_spec(va_of(l.sbss_with_stack), va_of(l.ebss), MapType::Identical, MAP_R | MAP_W),
        area_spec(va_of(l.ekernel), va_of(MEMORY_END), MapType::Identical, MAP_R | MAP_W),
    ]
}

/// Every section of the layout makes an area.
pub open spec fn kernel_layout_ok(l: KernelLayout) -> bool {
    forall|i: int| 0 <= i < 5 ==> (#[trigger] kernel_area_plan(l)[i]) is Some
}

/// Whether `area_spec` builds an area from `start` to `end`, both taken as
/// SV39 addresses; the map type and permission play no part in it.
fn area_possible(start: u64, end: u64) -> (r: bool)
    ensures
        forall|t: MapType, p: u8| r == (#[trigger] area_spec(va_of(start), va_of(end), t, p) is Some),
{
    let s = VirtAddr::from(start);
    let e = VirtAddr::from(end);
    e.0 <= u64::MAX - PAGE_SIZE + 1 && s.floor().0 <= e.ceil().0
}

/// Whether every section of the layout makes an area.
pub fn kernel_layout_valid(layout: &KernelLayout) -> (r: bool)
    ensures
        r == kernel_layout_ok(*layout),
{
    let ok = area_possible(layout.stext, layout.etext) && area_possible(layout.srodata, layout.erodata)
        && area_possible(layout.sdata, layout.edata) && area_possible(layout.sbss_with_stack, layout.ebss)
        && area_possible(layout.ekernel, MEMORY_END);
    proof {
        let plan = kernel_area_plan(*layout);
        assert(ok ==> (plan[0] is Some && plan[1] is Some && plan[2] is Some && plan[3] is Some && plan[4] is Some));
        assert(!ok ==> !(plan[0] is Some && plan[1] is Some && plan[2] is Some && plan[3] is Some && plan[4] is Some));
        if ok {
            assert forall|i: int| 0 <= i < 5 implies (#[trigger] kernel_area_plan(*layout)[i]) is Some by {
                assert(i == 0 || i == 1 || i == 2 || i == 3 || i == 4);
            }
        }
    }
    ok
}

/// The page that holds the trampoline in every address space, the frame of
/// the trampoline code at `strampoline`, and the flags it is mapped with:
/// readable and executable, not user-accessible.
pub fn trampoline_mapping(strampoline: u64) -> (r: (VirtPageNum, PhysPageNum, PTEFlags))
    requires
        (strampoline as int % pa_limit()) % PAGE_SIZE as int == 0,
    ensures
        r.0.0 == va_of(TRAMPOLINE) / PAGE_SIZE,
        r.1.0 == (strampoline as int % pa_limit()) / PAGE_SIZE as int,
        r.2@ == crate::mm::page_table::PTE_R | crate::mm::page_table::PTE_X,
{
    let va = VirtAddr::from(TRAMPOLINE);
    assert(va.0 % PAGE_SIZE == 0) by {
        assert(TRAMPOLINE as int % va_limit() == 0x7f_ffff_f000);
    }
    let pa = PhysAddr::from(strampoline);
    let vpn = VirtPageNum::from_aligned(va);
    let ppn = PhysPageNum::from_aligned(pa);
    let flags = PTEFlags::R().union(PTEFlags::X());
    (vpn, ppn, flags)
}

/// The kernel stack of application `app_id`: `(bottom, top)`. Stacks are
/// laid out downwards from the trampoline, each followed by a guard page.
pub fn kernel_stack_position(app_id: u64) -> (r: (u64, u64))
    requires
        app_id * (KERNEL_STACK_SIZE + PAGE_SIZE) + KERNEL_STACK_SIZE <= TRAMPOLINE,
    ensures
        r.1 == TRAMPOLINE - app_id * (KERNEL_STACK_SIZE + PAGE_SIZE),
        r.0 == r.1 - KERNEL_STACK_SIZE,
{
    let top = TRAMPOLINE - app_id * (KERNEL_STACK_SIZE + PAGE_SIZE);
    let bottom = top - KERNEL_STACK_SIZE;
    (bottom, top)
}

/// Kernel stacks of different applications never overlap: between the top
/// of a later one and the bottom of an earlier one lies at least a guard
/// page.
pub proof fn lemma_kernel_stacks_apart(i: u64, j: u64)
    requires
        i < j,
        j * (KERNEL_STACK_SIZE + PAGE_SIZE) + KERNEL_STACK_SIZE <= TRAMPOLINE,
    ensures
        TRAMPOLINE - j * (KERNEL_STACK_SIZE + PAGE_SIZE) + PAGE_SIZE <= TRAMPOLINE - i * (KERNEL_STACK_SIZE
            + PAGE_SIZE) - KERNEL_STACK_SIZE,
{
    assert(KERNEL_STACK_SIZE + PAGE_SIZE == 20480);
    assert(j * 20480 >= i * 20480 + 20480) by (nonlinear_arith)
        requires i < j;
}

impl MemorySet {
    /// The kernel's address space without the trampoline and kernel stacks:
    /// one identical area per section and one for the rest of physical
    /// memory, in that order.
    pub fn new_kernel(layout: &KernelLayout) -> (r: Self)
        requires
            kernel_layout_ok(*layout),
        ensures
            r@ == kernel_area_plan(*layout).map_values(|a: Option<AreaView>| a->0),
    {
        let ghost plan = kernel_area_plan(*layout);
        assert(plan[0] is Some && plan[1] is Some && plan[2] is Some && plan[3] is Some && plan[4] is Some);
        let mut memory_set = Self::new_bare();
        let text = MapArea::new(
            VirtAddr::from(layout.stext),
            VirtAddr::from(layout.etext),
            MapType::Identical,
            MapPermission::R().union(MapPermission::X()),
        );
        memory_set.push(text);
        let rodata = MapArea::new(
            VirtAddr::from(layout.srodata),
            VirtAddr::from(layout.erodata),
            MapType::Identical,
            MapPermission::R(),
        );
        memory_set.push(rodata);
        let data = MapArea::new(
            VirtAddr::from(layout.sdata),
            VirtAddr::from(layout.edata),
            MapType::Identical,
            MapPermission::R().union(MapPermission::W()),
        );
        memory_set.push(data);
        let bss = MapArea::new(
            VirtAddr::from(layout.sbss_with_stack),
            VirtAddr::from(layout.ebss),
            MapType::Identical,
            MapPermission::R().union(MapPermission::W()),
        );
        memory_set.push(bss);
        let physical = MapArea::new(
            VirtAddr::from(layout.ekernel),
            VirtAddr::from(MEMORY_END),
            MapType::Identical,
            MapPermission::R().union(MapPermission::W()),
        );
        memory_set.push(physical);
        assert(memory_set@ =~= plan.map_values(|a: Option<AreaView>| a->0));
        memory_set
    }
}


/// The permission bits hold `R`, hold `W` or not, hold `X` or not, and never
/// `U`.
pub open spec fn perm_is(perm: u8, w: bool, x: bool) -> bool {
    &&& perm & MAP_R != 0
    &&& (perm & MAP_W != 0) == w
    &&& (perm & MAP_X != 0) == x
    &&& perm & MAP_U == 0
}

/// The kernel's address space maps each section onto itself (identically,
/// from the page of its start to the page boundary at or above its end),
/// kernel-only: `.text` readable and executable but not writable,
/// `.rodata` only readable, `.data`, `.bss` and the physical memory after
/// the kernel readable and writable but not executable.
pub proof fn lemma_kernel_permissions(l: KernelLayout)
    requires
        kernel_layout_ok(l),
    ensures
        ({
            let p = kernel_area_plan(l);
            &&& perm_is(p[0]->0.perm, false, true)
            &&& perm_is(p[1]->0.perm, false, false)
            &&& perm_is(p[2]->0.perm, true, false)
            &&& perm_is(p[3]->0.perm, true, false)
            &&& perm_is(p[4]->0.perm, true, false)
            &&& forall|i: int| 0 <= i < 5 ==> (#[trigger] p[i])->0.map_type == MapType::Identical
            &&& p[0]->0.start == va_of(l.stext) / PAGE_SIZE && p[0]->0.end == ceil_page(va_of(l.etext) as int)
            &&& p[1]->0.start == va_of(l.srodata) / PAGE_SIZE && p[1]->0.end == ceil_page(va_of(l.erodata) as int)
            &&& p[2]->0.start == va_of(l.sdata) / PAGE_SIZE && p[2]->0.end == ceil_page(va_of(l.edata) as int)
            &&& p[3]->0.start == va_of(l.sbss_with_stack) / PAGE_SIZE && p[3]->0.end == ceil_page(
                va_of(l.ebss) as int,
            )
            &&& p[4]->0.start == va_of(l.ekernel) / PAGE_SIZE && p[4]->0.end == ceil_page(va_of(MEMORY_END) as int)
        }),
{
    let p = kernel_area_plan(l);
    assert(p[0] is Some && p[1] is Some && p[2] is Some && p[3] is Some && p[4] is Some);
    assert(perm_is(MAP_R | MAP_X, false, true)) by (bit_vector);
    assert(perm_is(MAP_R, false, false)) by (bit_vector);
    assert(perm_is(MAP_R | MAP_W, true, false)) by (bit_vector);
    assert forall|i: int| 0 <= i < 5 implies (#[trigger] p[i])->0.map_type == MapType::Identical by {
        assert(i == 0 || i == 1 || i == 2 || i == 3 || i == 4);
    }
}

} // verus!
