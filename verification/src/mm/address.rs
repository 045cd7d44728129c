//! Physical and virtual addresses and page numbers of the SV39 paging scheme.
//!
//! Physical addresses are 56 bits wide, virtual addresses 39 bits; a page is
//! 4 KiB, so a physical page number has 44 bits and a virtual one 27 bits.
use vstd::prelude::*;
use crate::config::{PAGE_SIZE, PAGE_SIZE_BITS};

verus! {

/// Width of an SV39 physical address in bits.
pub const PA_WIDTH_SV39: u64 = 56;

/// Width of an SV39 virtual address in bits.
pub const VA_WIDTH_SV39: u64 = 39;

/// Width of an SV39 physical page number in bits.
pub const PPN_WIDTH_SV39: u64 = 44;

/// Width of an SV39 virtual page number in bits.
pub const VPN_WIDTH_SV39: u64 = 27;

/// A physical address.
#[derive(Clone, Copy, PartialEq, Eq, Structural, PartialOrd, Ord, Debug)]
pub struct PhysAddr(pub u64);

/// A virtual address.
#[derive(Clone, Copy, PartialEq, Eq, Structural, PartialOrd, Ord, Debug)]
pub struct VirtAddr(pub u64);

/// A physical page number.
#[derive(Clone, Copy, PartialEq, Eq, Structural, PartialOrd, Ord, Debug)]
pub struct PhysPageNum(pub u64);

/// A virtual page number.
#[derive(Clone, Copy, PartialEq, Eq, Structural, PartialOrd, Ord, Debug)]
pub struct VirtPageNum(pub u64);

/// `2^56`: one past the largest physical address.
pub open spec fn pa_limit() -> int {
    0x100_0000_0000_0000
}

/// `2^44`: one past the largest physical page number.
pub open spec fn ppn_limit() -> int {
    0x1000_0000_0000
}

/// `2^39`: one past the largest (unextended) virtual address.
pub open spec fn va_limit() -> int {
    0x80_0000_0000
}

/// `2^27`: one past the largest virtual page number.
pub open spec fn vpn_limit() -> int {
    0x800_0000
}

/// The smallest page number whose page holds `addr` or lies above it.
pub open spec fn ceil_page(addr: int) -> int {
    (addr + PAGE_SIZE - 1) / PAGE_SIZE as int
}

impl From<u64> for PhysAddr {
    /// Keeps the low 56 bits of `v`.
    fn from(v: u64) -> (r: PhysAddr) {
        proof {
            assert(v & 0xff_ffff_ffff_ffffu64 == v % 0x100_0000_0000_0000u64) by (bit_vector);
        }
        PhysAddr(v & 0xff_ffff_ffff_ffff)
    }
}

impl vstd::std_specs::convert::FromSpecImpl<u64> for PhysAddr {
    open spec fn obeys_from_spec() -> bool {
        true
    }

    open spec fn from_spec(v: u64) -> PhysAddr {
        PhysAddr((v as int % pa_limit()) as u64)
    }
}

impl From<u64> for PhysPageNum {
    /// Keeps the low 44 bits of `v`.
    fn from(v: u64) -> (r: PhysPageNum) {
        proof {
            assert(v & 0xfff_ffff_ffffu64 == v % 0x1000_0000_0000u64) by (bit_vector);
        }
        PhysPageNum(v & 0xfff_ffff_ffff)
    }
}

impl vstd::std_specs::convert::FromSpecImpl<u64> for PhysPageNum {
    open spec fn obeys_from_spec() -> bool {
        true
    }

    open spec fn from_spec(v: u64) -> PhysPageNum {
        PhysPageNum((v as int % ppn_limit()) as u64)
    }
}

impl From<u64> for VirtAddr {
    /// Keeps the low 39 bits of `v`.
    fn from(v: u64) -> (r: VirtAddr) {
        proof {
            assert(v & 0x7f_ffff_ffffu64 == v % 0x80_0000_0000u64) by (bit_vector);
        }
        VirtAddr(v & 0x7f_ffff_ffff)
    }
}

impl vstd::std_specs::convert::FromSpecImpl<u64> for VirtAddr {
    open spec fn obeys_from_spec() -> bool {
        true
    }

    open spec fn from_spec(v: u64) -> VirtAddr {
        VirtAddr((v as int % va_limit()) as u64)
    }
}

impl From<u64> for VirtPageNum {
    /// Keeps the low 27 bits of `v`.
    fn from(v: u64) -> (r: VirtPageNum) {
        proof {
            assert(v & 0x7ff_ffffu64 == v % 0x800_0000u64) by (bit_vector);
        }
        VirtPageNum(v & 0x7ff_ffff)
    }
}

impl vstd::std_specs::convert::FromSpecImpl<u64> for VirtPageNum {
    open spec fn obeys_from_spec() -> bool {
        true
    }

    open spec fn from_spec(v: u64) -> VirtPageNum {
        VirtPageNum((v as int % vpn_limit()) as u64)
    }
}

impl From<PhysAddr> for u64 {
    fn from(v: PhysAddr) -> (r: u64) {
        v.0
    }
}

impl vstd::std_specs::convert::FromSpecImpl<PhysAddr> for u64 {
    open spec fn obeys_from_spec() -> bool {
        true
    }

    open spec fn from_spec(v: PhysAddr) -> u64 {
        v.0
    }
}

impl From<PhysPageNum> for u64 {
    fn from(v: PhysPageNum) -> (r: u64) {
        v.0
    }
}

impl vstd::std_specs::convert::FromSpecImpl<PhysPageNum> for u64 {
    open spec fn obeys_from_spec() -> bool {
        true
    }

    open spec fn from_spec(v: PhysPageNum) -> u64 {
        v.0
    }
}

impl From<VirtPageNum> for u64 {
    fn from(v: VirtPageNum) -> (r: u64) {
        v.0
    }
}

impl vstd::std_specs::convert::FromSpecImpl<VirtPageNum> for u64 {
    open spec fn obeys_from_spec() -> bool {
        true
    }

    open spec fn from_spec(v: VirtPageNum) -> u64 {
        v.0
    }
}

/// The 64-bit form of an SV39 virtual address: bits 39..63 copy bit 38.
pub open spec fn sign_extend_va(a: u64) -> u64 {
    if a < 0x40_0000_0000 {
        a
    } else {
        a | 0xffff_ff80_0000_0000u64
    }
}

impl From<VirtAddr> for u64 {
    /// Sign-extends addresses at or above `2^38`, as SV39 requires.
    fn from(v: VirtAddr) -> (r: u64) {
        if v.0 >= 0x40_0000_0000 {
            v.0 | 0xffff_ff80_0000_0000
        } else {
            v.0
        }
    }
}

impl vstd::std_specs::convert::FromSpecImpl<VirtAddr> for u64 {
    open spec fn obeys_from_spec() -> bool {
        true
    }

    open spec fn from_spec(v: VirtAddr) -> u64 {
        sign_extend_va(v.0)
    }
}

/// An SV39 address survives the trip to its 64-bit form and back: sign
/// extension only adds bits that keeping the low 39 bits drops again.
pub proof fn lemma_va_round_trip(a: u64)
    requires
        a < va_limit(),
    ensures
        (sign_extend_va(a) as int % va_limit()) == a,
{
    assert(a < 0x80_0000_0000u64 ==> (if a < 0x40_0000_0000u64 { a } else { a | 0xffff_ff80_0000_0000u64 })
        % 0x80_0000_0000u64 == a) by (bit_vector);
}

impl VirtAddr {
    /// The page number of the page that holds this address.
    pub fn floor(&self) -> (r: VirtPageNum)
        ensures
            r.0 == self.0 / PAGE_SIZE,
    {
        VirtPageNum(self.0 / PAGE_SIZE)
    }

    /// The page number of the first page boundary at or above this address.
    pub fn ceil(&self) -> (r: VirtPageNum)
        requires
            self.0 <= u64::MAX - PAGE_SIZE + 1,
        ensures
            r.0 == ceil_page(self.0 as int),
    {
        if self.0 == 0 {
            VirtPageNum(0)
        } else {
            VirtPageNum((self.0 - 1 + PAGE_SIZE) / PAGE_SIZE)
        }
    }

    /// The offset of this address inside its page.
    pub fn page_offset(&self) -> (r: u64)
        ensures
            r == self.0 % PAGE_SIZE,
    {
        proof {
            let a = self.0;
            assert(a & 4095u64 == a % 4096u64) by (bit_vector);
        }
        self.0 & (PAGE_SIZE - 1)
    }

    /// Whether this address is the start of a page.
    pub fn aligned(&self) -> (r: bool)
        ensures
            r == (self.0 % PAGE_SIZE == 0),
    {
        self.page_offset() == 0
    }

    /// The start address of a page.
    /// Bits shifted past the top are dropped.
    pub fn from_page(v: VirtPageNum) -> (r: VirtAddr)
        ensures
            r.0 as int == (v.0 as int * PAGE_SIZE) % 0x1_0000_0000_0000_0000,
    {
        proof {
            let x = v.0;
            assert((x << 12u64) as int == (x as int * 4096) % 0x1_0000_0000_0000_0000int) by (bit_vector);
        }
        VirtAddr(v.0 << PAGE_SIZE_BITS)
    }
}

impl PhysAddr {
    /// The page number of the physical page that holds this address.
    pub fn floor(&self) -> (r: PhysPageNum)
        ensures
            r.0 == self.0 / PAGE_SIZE,
    {
        PhysPageNum(self.0 / PAGE_SIZE)
    }

    /// The page number of the first page boundary at or above this address.
    pub fn ceil(&self) -> (r: PhysPageNum)
        requires
            self.0 <= u64::MAX - PAGE_SIZE + 1,
        ensures
            r.0 == ceil_page(self.0 as int),
    {
        if self.0 == 0 {
            PhysPageNum(0)
        } else {
            PhysPageNum((self.0 - 1 + PAGE_SIZE) / PAGE_SIZE)
        }
    }

    /// The offset of this address inside its page.
    pub fn page_offset(&self) -> (r: u64)
        ensures
            r == self.0 % PAGE_SIZE,
    {
        proof {
            let a = self.0;
            assert(a & 4095u64 == a % 4096u64) by (bit_vector);
        }
        self.0 & (PAGE_SIZE - 1)
    }

    /// Whether this address is the start of a page.
    pub fn aligned(&self) -> (r: bool)
        ensures
            r == (self.0 % PAGE_SIZE == 0),
    {
        self.page_offset() == 0
    }

    /// The start address of a physical page.
    /// Bits shifted past the top are dropped.
    pub fn from_page(v: PhysPageNum) -> (r: PhysAddr)
        ensures
            r.0 as int == (v.0 as int * PAGE_SIZE) % 0x1_0000_0000_0000_0000,
    {
        proof {
            let x = v.0;
            assert((x << 12u64) as int == (x as int * 4096) % 0x1_0000_0000_0000_0000int) by (bit_vector);
        }
        PhysAddr(v.0 << PAGE_SIZE_BITS)
    }
}

impl VirtPageNum {
    /// The page number of a page-aligned virtual address.
    pub fn from_aligned(v: VirtAddr) -> (r: VirtPageNum)
        requires
            v.0 % PAGE_SIZE == 0,
        ensures
            r.0 == v.0 / PAGE_SIZE,
    {
        v.floor()
    }

    /// The three 9-bit indexes of this page number into the levels of the
    /// page table, highest level first.
    pub fn indexes(&self) -> (r: [u64; 3])
        ensures
            r[0] == (self.0 / 0x4_0000) % 512,
            r[1] == (self.0 / 512) % 512,
            r[2] == self.0 % 512,
    {
        let mut vpn = self.0;
        let mut idx = [0u64; 3];
        let v0 = vpn;
        proof {
            assert(v0 & 511u64 == v0 % 512u64) by (bit_vector);
            assert((v0 >> 9u64) == v0 / 512u64) by (bit_vector);
            assert((v0 >> 9u64) & 511u64 == (v0 / 512u64) % 512u64) by (bit_vector);
            assert(((v0 >> 9u64) >> 9u64) & 511u64 == (v0 / 0x4_0000u64) % 512u64) by (bit_vector);
        }
        idx[2] = vpn & 511;
        vpn = vpn >> 9;
        idx[1] = vpn & 511;
        vpn = vpn >> 9;
        idx[0] = vpn & 511;
        idx
    }
}

impl PhysPageNum {
    /// The page number of a page-aligned physical address.
    pub fn from_aligned(v: PhysAddr) -> (r: PhysPageNum)
        requires
            v.0 % PAGE_SIZE == 0,
        ensures
            r.0 == v.0 / PAGE_SIZE,
    {
        v.floor()
    }
}

/// Values that can be advanced one step at a time, such as page numbers.
pub trait StepByOne: Sized {
    /// The position of this value on the line of steps.
    spec fn step_index(&self) -> int;

    /// Advances to the next position.
    fn step(&mut self)
        requires
            old(self).step_index() < u64::MAX,
        ensures
            final(self).step_index() == old(self).step_index() + 1,
    ;

    /// The position of this value, as a machine word.
    fn position(&self) -> (r: u64)
        ensures
            r == self.step_index(),
    ;
}

impl StepByOne for VirtPageNum {
    open spec fn step_index(&self) -> int {
        self.0 as int
    }

    fn step(&mut self) {
        self.0 = self.0 + 1;
    }

    fn position(&self) -> (r: u64) {
        self.0
    }
}

/// A half-open range `[l, r)` of steppable values.
#[derive(Clone, Copy)]
pub struct SimpleRange<T: StepByOne + Copy> {
    l: T,
    r: T,
}

impl<T: StepByOne + Copy> SimpleRange<T> {
    /// The first value of the range.
    pub closed spec fn start(&self) -> T {
        self.l
    }

    /// The value one past the last one of the range.
    pub closed spec fn end(&self) -> T {
        self.r
    }

    /// Creates the range `[start, end)`.
    pub fn new(start: T, end: T) -> (r: Self)
        requires
            start.step_index() <= end.step_index(),
        ensures
            r.start() == start,
            r.end() == end,
    {
        Self { l: start, r: end }
    }

    /// The first value of the range.
    pub fn get_start(&self) -> (r: T)
        ensures
            r == self.start(),
    {
        self.l
    }

    /// The value one past the last one of the range.
    pub fn get_end(&self) -> (r: T)
        ensures
            r == self.end(),
    {
        self.r
    }

    /// An iterator over the values of the range.
    pub fn into_iter(self) -> (r: SimpleRangeIterator<T>)
        ensures
            r.current() == self.start(),
            r.end() == self.end(),
    {
        SimpleRangeIterator::new(self.l, self.r)
    }
}

/// Iterator over a [`SimpleRange`].
pub struct SimpleRangeIterator<T: StepByOne + Copy> {
    current: T,
    end: T,
}

impl<T: StepByOne + Copy> SimpleRangeIterator<T> {
    /// The value the next call hands out.
    pub closed spec fn current(&self) -> T {
        self.current
    }

    /// The value at which the iteration stops.
    pub closed spec fn end(&self) -> T {
        self.end
    }

    /// An iterator from `l` (included) to `r` (excluded).
    pub fn new(l: T, r: T) -> (it: Self)
        ensures
            it.current() == l,
            it.end() == r,
    {
        Self { current: l, end: r }
    }

    /// Hands out the current value and steps past it, or `None` once the
    /// end is reached.
    pub fn next(&mut self) -> (r: Option<T>)
        requires
            old(self).current().step_index() <= old(self).end().step_index(),
            old(self).end().step_index() <= u64::MAX,
        ensures
            final(self).end() == old(self).end(),
            old(self).current().step_index() == old(self).end().step_index() ==> {
                &&& r.is_none()
                &&& final(self).current() == old(self).current()
            },
            old(self).current().step_index() < old(self).end().step_index() ==> {
                &&& r == Some(old(self).current())
                &&& final(self).current().step_index() == old(self).current().step_index() + 1
            },
    {
        if self.current.position() == self.end.position() {
            None
        } else {
            let t = self.current;
            self.current.step();
            Some(t)
        }
    }
}

/// A range of virtual page numbers.
pub type VPNRange = SimpleRange<VirtPageNum>;

impl VPNRange {
    /// The page numbers of the range, in increasing order.
    pub fn pages(&self) -> (r: Vec<VirtPageNum>)
        requires
            self.start().0 <= self.end().0,
        ensures
            r@.len() == self.end().0 - self.start().0,
            forall|i: int| 0 <= i < r@.len() ==> #[trigger] r@[i].0 == self.start().0 + i,
    {
        let mut v: Vec<VirtPageNum> = Vec::new();
        let mut cur = self.l;
        let end = self.r;
        while cur.0 < end.0
            invariant
                self.l.0 <= cur.0 <= end.0,
                end == self.r,
                v@.len() == cur.0 - self.l.0,
                forall|i: int| 0 <= i < v@.len() ==> #[trigger] v@[i].0 == self.l.0 + i,
            decreases end.0 - cur.0,
        {
            v.push(cur);
            cur.step();
        }
        v
    }
}

} // verus!
