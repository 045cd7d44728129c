//! Page-table entries of the SV39 scheme.
//!
//! An entry holds a 44-bit physical page number in bits 10..53 and its flags
//! in bits 0..7.
use vstd::prelude::*;
use crate::mm::address::{PhysPageNum, VirtPageNum, ppn_limit};

verus! {

/// The flag bits of a page-table entry (its low 8 bits).
#[derive(Clone, Copy, PartialEq, Eq, Structural, Debug)]
pub struct PTEFlags {
    bits: u8,
}

impl View for PTEFlags {
    type V = u8;

    closed spec fn view(&self) -> u8 {
        self.bits
    }
}

/// Bit of the valid flag.
pub const PTE_V: u8 = 1;
/// Bit of the readable flag.
pub const PTE_R: u8 = 2;
/// Bit of the writable flag.
pub const PTE_W: u8 = 4;
/// Bit of the executable flag.
pub const PTE_X: u8 = 8;
/// Bit of the user-accessible flag.
pub const PTE_U: u8 = 16;
/// Bit of the global flag.
pub const PTE_G: u8 = 32;
/// Bit of the accessed flag.
pub const PTE_A: u8 = 64;
/// Bit of the dirty flag.
pub const PTE_D: u8 = 128;

#[allow(non_snake_case)]
impl PTEFlags {
    /// The flag set with these bits, in specifications.
    pub closed spec fn from_bits_spec(bits: u8) -> PTEFlags {
        PTEFlags { bits }
    }

    /// A flag set is determined by its bits.
    pub proof fn lemma_from_bits_spec(f: PTEFlags, bits: u8)
        ensures
            PTEFlags::from_bits_spec(bits)@ == bits,
            f@ == bits ==> f == PTEFlags::from_bits_spec(bits),
    {
    }

    /// The flag set with exactly these bits; every bit of a `u8` names a flag.
    pub fn from_bits(bits: u8) -> (r: Option<PTEFlags>)
        ensures
            r matches Some(f) && f@ == bits,
    {
        Some(PTEFlags { bits })
    }

    /// The flag set with exactly these bits.
    pub fn from_bits_truncate(bits: u8) -> (r: PTEFlags)
        ensures
            r@ == bits,
    {
        PTEFlags { bits }
    }

    /// The bits of the flag set.
    pub fn bits(&self) -> (r: u8)
        ensures
            r == self@,
    {
        self.bits
    }

    /// No flag.
    pub fn empty() -> (r: PTEFlags)
        ensures
            r@ == 0,
    {
        PTEFlags { bits: 0 }
    }

    /// Valid.
    pub fn V() -> (r: PTEFlags)
        ensures
            r@ == PTE_V,
    {
        PTEFlags { bits: PTE_V }
    }

    /// Readable.
    pub fn R() -> (r: PTEFlags)
        ensures
            r@ == PTE_R,
    {
        PTEFlags { bits: PTE_R }
    }

    /// Writable.
    pub fn W() -> (r: PTEFlags)
        ensures
            r@ == PTE_W,
    {
        PTEFlags { bits: PTE_W }
    }

    /// Executable.
    pub fn X() -> (r: PTEFlags)
        ensures
            r@ == PTE_X,
    {
        PTEFlags { bits: PTE_X }
    }

    /// Accessible from user mode.
    pub fn U() -> (r: PTEFlags)
        ensures
            r@ == PTE_U,
    {
        PTEFlags { bits: PTE_U }
    }

    /// Whether every flag of `other` is set here.
    pub fn contains(&self, other: PTEFlags) -> (r: bool)
        ensures
            r == (self@ & other@ == other@),
    {
        (self.bits & other.bits) == other.bits
    }

    /// The flags set in either.
    pub fn union(self, other: PTEFlags) -> (r: PTEFlags)
        ensures
            r@ == self@ | other@,
    {
        PTEFlags { bits: self.bits | other.bits }
    }

    /// The flags set in both.
    pub fn intersection(self, other: PTEFlags) -> (r: PTEFlags)
        ensures
            r@ == self@ & other@,
    {
        PTEFlags { bits: self.bits & other.bits }
    }

    /// Whether no flag is set.
    pub fn is_empty(&self) -> (r: bool)
        ensures
            r == (self@ == 0),
    {
        self.bits == 0
    }
}

/// A page-table entry: a physical page number in bits 10..53, flags in bits 0..7.
#[derive(Clone, Copy, PartialEq, Eq, Structural, Debug)]
pub struct PageTableEntry {
    /// The raw bits of the entry.
    pub bits: u64,
}

/// The physical page number an entry's bits point to.
pub open spec fn pte_ppn(bits: u64) -> u64 {
    ((bits as int / 1024) % ppn_limit()) as u64
}

/// The flags of an entry's bits.
pub open spec fn pte_flags(bits: u64) -> u8 {
    (bits % 256) as u8
}

/// Whether a flag bit is set in an entry's bits.
pub open spec fn pte_has(bits: u64, flag: u8) -> bool {
    pte_flags(bits) & flag != 0
}

impl PageTableEntry {
    /// An entry pointing to `ppn` with `flags`.
    pub fn new(ppn: PhysPageNum, flags: PTEFlags) -> (r: PageTableEntry)
        requires
            ppn.0 < ppn_limit(),
        ensures
            pte_ppn(r.bits) == ppn.0,
            pte_flags(r.bits) == flags@,
            r.bits == ppn.0 * 1024 + flags@,
    {
        let p = ppn.0;
        let f = flags.bits as u64;
        proof {
            assert(p < 0x1000_0000_0000u64 ==> (p << 10u64) | f == p * 1024 + f) by (bit_vector)
                requires
                    f < 256,
            ;
            assert(p < 0x1000_0000_0000u64 ==> ((p * 1024 + f) / 1024) % 0x1000_0000_0000 == p) by (bit_vector)
                requires
                    f < 256,
            ;
            assert(p < 0x1000_0000_0000u64 ==> (p * 1024 + f) % 256 == f) by (bit_vector)
                requires
                    f < 256,
            ;
        }
        PageTableEntry { bits: (p << 10) | f }
    }

    /// The entry with no bit set, which maps nothing.
    pub fn empty() -> (r: PageTableEntry)
        ensures
            r.bits == 0,
    {
        PageTableEntry { bits: 0 }
    }

    /// The physical page number the entry points to.
    pub fn ppn(&self) -> (r: PhysPageNum)
        ensures
            r.0 == pte_ppn(self.bits),
    {
        let b = self.bits;
        proof {
            assert((b >> 10u64) & 0xfff_ffff_ffffu64 == (b / 1024) % 0x1000_0000_0000) by (bit_vector);
        }
        PhysPageNum((self.bits >> 10) & 0xfff_ffff_ffff)
    }

    /// The flags of the entry.
    pub fn flags(&self) -> (r: PTEFlags)
        ensures
            r@ == pte_flags(self.bits),
    {
        let b = self.bits;
        proof {
            assert(b as u8 == b % 256) by (bit_vector);
        }
        PTEFlags::from_bits_truncate(self.bits as u8)
    }

    /// Whether the entry is valid.
    pub fn is_valid(&self) -> (r: bool)
        ensures
            r == pte_has(self.bits, PTE_V),
    {
        !self.flags().intersection(PTEFlags::V()).is_empty()
    }

    /// Whether the page is readable.
    pub fn readable(&self) -> (r: bool)
        ensures
            r == pte_has(self.bits, PTE_R),
    {
        !self.flags().intersection(PTEFlags::R()).is_empty()
    }

    /// Whether the page is writable.
    pub fn writable(&self) -> (r: bool)
        ensures
            r == pte_has(self.bits, PTE_W),
    {
        !self.flags().intersection(PTEFlags::W()).is_empty()
    }

    /// Whether the page is executable.
    pub fn executable(&self) -> (r: bool)
        ensures
            r == pte_has(self.bits, PTE_X),
    {
        !self.flags().intersection(PTEFlags::X()).is_empty()
    }

    /// Whether the page is accessible from user mode.
    pub fn is_user_accessible(&self) -> (r: bool)
        ensures
            r == pte_has(self.bits, PTE_U),
    {
        !self.flags().intersection(PTEFlags::U()).is_empty()
    }
}

/// The `satp` value that turns on SV39 translation with the page table whose
/// root is `root_ppn`: mode 8 in bits 60..63, the root page number below.
pub fn token_of(root_ppn: PhysPageNum) -> (r: u64)
    requires
        root_ppn.0 < ppn_limit(),
    ensures
        r == 0x8000_0000_0000_0000u64 + root_ppn.0,
{
    let p = root_ppn.0;
    proof {
        assert(p < 0x1000_0000_0000u64 ==> (8u64 << 60u64) | p == 0x8000_0000_0000_0000u64 + p) by (bit_vector);
    }
    (8u64 << 60) | root_ppn.0
}

/// The root page number held in a `satp` value (its low 44 bits).
pub fn root_ppn_of_token(satp: u64) -> (r: PhysPageNum)
    ensures
        r.0 == satp % (ppn_limit() as u64),
{
    proof {
        assert(satp & 0xfff_ffff_ffffu64 == satp % 0x1000_0000_0000u64) by (bit_vector);
    }
    PhysPageNum(satp & 0xfff_ffff_ffff)
}

/// Taking the root page number back out of a token gives the root.
pub proof fn lemma_token_round_trip(root: u64)
    requires
        root < ppn_limit(),
    ensures
        (0x8000_0000_0000_0000int + root) % ppn_limit() == root as int,
{
    vstd::arithmetic::div_mod::lemma_mod_multiples_vanish(0x80000, root as int, ppn_limit());
    vstd::arithmetic::div_mod::lemma_small_mod(root as nat, ppn_limit() as nat);
}


/// The index into the page-table page at `level` (0 for the root) of the
/// walk for page `vpn`: 9 bits of the page number, highest first.
pub open spec fn level_index(vpn: u64, level: int) -> u64 {
    if level == 0 {
        ((vpn / 0x4_0000) % 512) as u64
    } else if level == 1 {
        ((vpn / 512) % 512) as u64
    } else {
        (vpn % 512) as u64
    }
}

/// Where a page-table walk stands: the page-table page it looks at, the
/// level of that page (0 for the root) and the index of the entry there.
#[derive(Clone, Copy, PartialEq, Eq, Structural, Debug)]
pub struct WalkPosition {
    /// The frame holding the page-table page.
    pub ppn: PhysPageNum,
    /// Its level, 0 for the root and 2 for the leaf level.
    pub level: usize,
    /// The index of the entry looked at.
    pub index: u64,
}

/// The walk down the three levels of a page table for one virtual page.
/// Whoever holds the page table reads (and, when creating, writes) the
/// entry at each position; the walk decides where to go next.
pub struct PageWalk {
    vpn: VirtPageNum,
    idxs: [u64; 3],
    position: WalkPosition,
}

impl PageWalk {
    /// The page the walk is for.
    pub closed spec fn vpn_spec(&self) -> u64 {
        self.vpn.0
    }

    /// Where the walk stands.
    pub closed spec fn position_spec(&self) -> WalkPosition {
        self.position
    }

    /// The walk's state is consistent: its index is the one of its level.
    pub closed spec fn wf(&self) -> bool {
        &&& self.position.level < 3
        &&& self.position.index == level_index(self.vpn.0, self.position.level as int)
        &&& self.idxs@[0] == level_index(self.vpn.0, 0)
        &&& self.idxs@[1] == level_index(self.vpn.0, 1)
        &&& self.idxs@[2] == level_index(self.vpn.0, 2)
    }

    /// A walk for `vpn` starting at the root page `root`.
    pub fn new(root: PhysPageNum, vpn: VirtPageNum) -> (r: Self)
        ensures
            r.wf(),
            r.vpn_spec() == vpn.0,
            r.position_spec() == (WalkPosition { ppn: root, level: 0, index: level_index(vpn.0, 0) }),
    {
        let idxs = vpn.indexes();
        PageWalk { vpn, idxs, position: WalkPosition { ppn: root, level: 0, index: idxs[0] } }
    }

    /// Where the walk stands.
    pub fn position(&self) -> (r: WalkPosition)
        ensures
            r == self.position_spec(),
    {
        self.position
    }

    /// Whether the walk stands at the leaf level, whose entry maps the page.
    pub fn at_leaf(&self) -> (r: bool)
        requires
            self.wf(),
        ensures
            r == (self.position_spec().level == 2),
    {
        self.position.level == 2
    }

    /// Follows `entry`, the entry at the current position of a level above
    /// the leaf: into the page it points to when it is valid (returning
    /// `true`); a walk that only looks stops at an invalid entry (`false`),
    /// as the page is not mapped.
    pub fn descend(&mut self, entry: PageTableEntry) -> (r: bool)
        requires
            old(self).wf(),
            old(self).position_spec().level < 2,
        ensures
            final(self).wf(),
            final(self).vpn_spec() == old(self).vpn_spec(),
            r == pte_has(entry.bits, PTE_V),
            r ==> final(self).position_spec() == (WalkPosition {
                ppn: PhysPageNum(pte_ppn(entry.bits)),
                level: (old(self).position_spec().level + 1) as usize,
                index: level_index(old(self).vpn_spec(), old(self).position_spec().level + 1),
            }),
            !r ==> final(self).position_spec() == old(self).position_spec(),
    {
        if !entry.is_valid() {
            return false;
        }
        let level = self.position.level + 1;
        self.position = WalkPosition { ppn: entry.ppn(), level, index: self.idxs[level] };
        true
    }
}

/// The entry that maps a page to `ppn` with `flags`, made valid.
pub fn map_entry(ppn: PhysPageNum, flags: PTEFlags) -> (r: PageTableEntry)
    requires
        ppn.0 < ppn_limit(),
    ensures
        pte_ppn(r.bits) == ppn.0,
        pte_flags(r.bits) == flags@ | PTE_V,
{
    PageTableEntry::new(ppn, flags.union(PTEFlags::V()))
}

/// A page table: its root page and the frames of its pages that it owns
/// (none for a table only borrowed through a `satp` token).
pub struct PageTable {
    root_ppn: PhysPageNum,
    frames: Vec<PhysPageNum>,
}

impl PageTable {
    /// The root page.
    pub closed spec fn root_spec(&self) -> PhysPageNum {
        self.root_ppn
    }

    /// The frames the table owns.
    pub closed spec fn frames_spec(&self) -> Seq<PhysPageNum> {
        self.frames@
    }

    /// A table whose root is the freshly zeroed frame `root`, which it owns.
    pub fn new(root: PhysPageNum) -> (r: Self)
        ensures
            r.root_spec() == root,
            r.frames_spec() == seq![root],
    {
        PageTable { root_ppn: root, frames: vec![root] }
    }

    /// The table a `satp` value points to, owning none of its frames.
    pub fn from_token(satp: u64) -> (r: Self)
        ensures
            r.root_spec().0 == satp % (ppn_limit() as u64),
            r.frames_spec() == Seq::<PhysPageNum>::empty(),
    {
        PageTable { root_ppn: root_ppn_of_token(satp), frames: Vec::new() }
    }

    /// The root page.
    pub fn root_ppn(&self) -> (r: PhysPageNum)
        ensures
            r == self.root_spec(),
    {
        self.root_ppn
    }

    /// The `satp` value that turns on translation through this table.
    pub fn token(&self) -> (r: u64)
        requires
            self.root_spec().0 < ppn_limit(),
        ensures
            r == 0x8000_0000_0000_0000u64 + self.root_spec().0,
    {
        token_of(self.root_ppn)
    }

    /// A walk through this table for `vpn`.
    pub fn walk(&self, vpn: VirtPageNum) -> (r: PageWalk)
        ensures
            r.wf(),
            r.vpn_spec() == vpn.0,
            r.position_spec() == (WalkPosition { ppn: self.root_spec(), level: 0, index: level_index(vpn.0, 0) }),
    {
        PageWalk::new(self.root_ppn, vpn)
    }

    /// Takes ownership of `frame`, a fresh page-table page made while
    /// walking with creation.
    pub fn add_frame(&mut self, frame: PhysPageNum)
        ensures
            final(self).root_spec() == old(self).root_spec(),
            final(self).frames_spec() == old(self).frames_spec().push(frame),
    {
        self.frames.push(frame);
    }
}

} // verus!
