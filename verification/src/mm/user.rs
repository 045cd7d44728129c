//! Access to user memory: which pieces of which pages a user buffer covers,
//! and what a byte access through a page-table entry may do.
use vstd::prelude::*;
use crate::config::PAGE_SIZE;
use crate::mm::address::{VirtAddr, VirtPageNum, PhysPageNum};
use crate::mm::page_table::{PageTableEntry, pte_has, pte_ppn, PTE_U, PTE_R, PTE_W};

verus! {

/// User addresses lie below `2^38`, where an SV39 address is its own
/// 64-bit form.
pub open spec fn user_space_end() -> int {
    0x40_0000_0000
}

/// The part of one page a user buffer covers: the bytes
/// `[start_offset, end_offset)` of page `vpn`.
#[derive(Clone, Copy, PartialEq, Eq, Structural, Debug)]
pub struct BufferPiece {
    /// The page.
    pub vpn: VirtPageNum,
    /// First byte covered, from the start of the page.
    pub start_offset: u64,
    /// One past the last byte covered, from the start of the page.
    pub end_offset: u64,
}

/// The pieces of the buffer `[start, end)`, page by page: each from its
/// start to the next page boundary or to the end of the buffer.
pub open spec fn pieces_spec(start: u64, end: u64) -> Seq<BufferPiece>
    decreases end - start,
{
    if start >= end {
        Seq::empty()
    } else {
        let vpn = start / PAGE_SIZE;
        let next = if (vpn + 1) * PAGE_SIZE < end { (vpn + 1) * PAGE_SIZE } else { end as int };
        seq![
            BufferPiece {
                vpn: VirtPageNum(vpn as u64),
                start_offset: (start % PAGE_SIZE) as u64,
                end_offset: (next - vpn * PAGE_SIZE) as u64,
            },
        ] + pieces_spec(next as u64, end)
    }
}

/// The pieces of the user buffer of `len` bytes at `ptr`, in order.
pub fn translated_byte_buffer(ptr: u64, len: u64) -> (r: Vec<BufferPiece>)
    requires
        ptr + len <= user_space_end(),
    ensures
        r@ == pieces_spec(ptr, (ptr + len) as u64),
{
    let end = ptr + len;
    let mut start = ptr;
    let mut v: Vec<BufferPiece> = Vec::new();
    while start < end
        invariant
            ptr <= start,
            end == ptr + len,
            end <= user_space_end(),
            v@ + pieces_spec(start, end) == pieces_spec(ptr, end),
        decreases end - start,
    {
        let start_va = VirtAddr::from(start);
        let vpn = start_va.floor();
        let next_page = VirtAddr::from_page(VirtPageNum(vpn.0 + 1));
        let end_va = if next_page.0 < end { next_page } else { VirtAddr::from(end) };
        proof {
            vstd::arithmetic::div_mod::lemma_small_mod(start as nat, 0x80_0000_0000nat);
            vstd::arithmetic::div_mod::lemma_small_mod(end as nat, 0x80_0000_0000nat);
            assert((vpn.0 + 1) * 4096 <= end + 4096) by (nonlinear_arith)
                requires vpn.0 == start / 4096, start < end;
            vstd::arithmetic::div_mod::lemma_small_mod(((vpn.0 + 1) * 4096) as nat, 0x1_0000_0000_0000_0000nat);
            assert(end_va.0 > start) by (nonlinear_arith)
                requires vpn.0 == start / 4096, end_va.0 == (if (vpn.0 + 1) * 4096 < end { (vpn.0 + 1) * 4096 } else { end as int }), start < end;
            assert(end_va.0 - vpn.0 * 4096 <= 4096) by (nonlinear_arith)
                requires vpn.0 == start / 4096, end_va.0 <= (vpn.0 + 1) * 4096;
        }
        let piece = BufferPiece {
            vpn,
            start_offset: start_va.page_offset(),
            end_offset: end_va.0 - vpn.0 * PAGE_SIZE,
        };
        let ghost old_v = v@;
        v.push(piece);
        assert(pieces_spec(start, end) == seq![piece] + pieces_spec(end_va.0, end));
        assert(v@ + pieces_spec(end_va.0, end) =~= old_v + pieces_spec(start, end));
        start = end_va.0;
    }
    assert(v@ =~= pieces_spec(ptr, end));
    v
}

/// The pieces cover the buffer: each lies inside one page, starts where the
/// previous one ended, and together they hold exactly the buffer's bytes.
pub proof fn lemma_pieces_cover(start: u64, end: u64)
    requires
        start <= end,
    ensures
        pieces_total(pieces_spec(start, end)) == end - start,
        forall|k: int|
            0 <= k < pieces_spec(start, end).len() ==> (#[trigger] pieces_spec(start, end)[k]).start_offset
                < pieces_spec(start, end)[k].end_offset <= PAGE_SIZE,
    decreases end - start,
{
    if start < end {
        let vpn = start / PAGE_SIZE;
        let next = if (vpn + 1) * PAGE_SIZE < end { (vpn + 1) * PAGE_SIZE } else { end as int };
        assert(next > start && next - vpn * 4096 <= 4096 && start % 4096 < next - vpn * 4096) by (nonlinear_arith)
            requires vpn == start / 4096, next == (if (vpn + 1) * 4096 < end { (vpn + 1) * 4096 } else { end as int }), start < end;
        lemma_pieces_cover(next as u64, end);
        let rest = pieces_spec(next as u64, end);
        let p = pieces_spec(start, end)[0];
        assert(pieces_spec(start, end) =~= seq![p] + rest);
        assert((seq![p] + rest).drop_first() =~= rest);
        assert(start % 4096 == start - vpn * 4096) by (nonlinear_arith)
            requires vpn == start / 4096;
        assert forall|k: int| 0 <= k < pieces_spec(start, end).len() implies (#[trigger] pieces_spec(start, end)[k]).start_offset
            < pieces_spec(start, end)[k].end_offset <= PAGE_SIZE by {
            if k > 0 {
                assert(pieces_spec(start, end)[k] == rest[k - 1]);
            }
        }
    }
}

/// The number of bytes the pieces cover.
pub open spec fn pieces_total(s: Seq<BufferPiece>) -> int
    decreases s.len(),
{
    if s.len() == 0 {
        0
    } else {
        (s[0].end_offset - s[0].start_offset) + pieces_total(s.drop_first())
    }
}

/// What a one-byte access to user memory does.
#[derive(Clone, Copy, PartialEq, Eq, Structural, Debug)]
pub enum UserAccess {
    /// Refused: the page is not mapped, not user-accessible, or lacks the
    /// permission; the call returns -1.
    Denied,
    /// Read the byte at `offset` of frame `ppn` and return it.
    Read { ppn: PhysPageNum, offset: u64 },
    /// Write `byte` at `offset` of frame `ppn` and return 0.
    Write { ppn: PhysPageNum, offset: u64, byte: u8 },
}

/// The access to the byte at user address `addr` (as an SV39 address),
/// `pte` being what the page table holds for its page: a read (`data` is
/// `None`) needs a user-accessible readable page, a write a user-accessible
/// writable one.
pub open spec fn user_access_spec(pte: Option<PageTableEntry>, addr: u64, data: Option<u8>) -> UserAccess {
    match pte {
        None => UserAccess::Denied,
        Some(e) => if !pte_has(e.bits, PTE_U) {
            UserAccess::Denied
        } else {
            match data {
                Some(byte) => if pte_has(e.bits, PTE_W) {
                    UserAccess::Write { ppn: PhysPageNum(pte_ppn(e.bits)), offset: (addr % 0x80_0000_0000) % PAGE_SIZE, byte }
                } else {
                    UserAccess::Denied
                },
                None => if pte_has(e.bits, PTE_R) {
                    UserAccess::Read { ppn: PhysPageNum(pte_ppn(e.bits)), offset: (addr % 0x80_0000_0000) % PAGE_SIZE }
                } else {
                    UserAccess::Denied
                },
            }
        },
    }
}

/// The page of user address `addr` whose entry an access looks up.
pub fn user_page(addr: u64) -> (r: VirtPageNum)
    ensures
        r.0 == (addr % 0x80_0000_0000) / PAGE_SIZE,
{
    VirtAddr::from(addr).floor()
}

/// Decides a one-byte access at user address `addr` through the entry
/// `pte` of its page: a read when `data` is `None`, a write of the byte
/// otherwise.
pub fn do_user_memory(pte: Option<PageTableEntry>, addr: u64, data: Option<u8>) -> (r: UserAccess)
    ensures
        r == user_access_spec(pte, addr, data),
{
    let va = VirtAddr::from(addr);
    let e = match pte {
        Some(e) => e,
        None => return UserAccess::Denied,
    };
    if !e.is_user_accessible() {
        return UserAccess::Denied;
    }
    match data {
        Some(byte) => {
            if !e.writable() {
                return UserAccess::Denied;
            }
            UserAccess::Write { ppn: e.ppn(), offset: va.page_offset(), byte }
        },
        None => {
            if !e.readable() {
                return UserAccess::Denied;
            }
            UserAccess::Read { ppn: e.ppn(), offset: va.page_offset() }
        },
    }
}

/// Reading the byte at `addr`.
pub fn read_user_memory(pte: Option<PageTableEntry>, addr: u64) -> (r: UserAccess)
    ensures
        r == user_access_spec(pte, addr, None),
{
    do_user_memory(pte, addr, None)
}

/// Writing the low byte of `data` at `addr`.
pub fn write_user_memory(pte: Option<PageTableEntry>, addr: u64, data: u64) -> (r: UserAccess)
    ensures
        r == user_access_spec(pte, addr, Some(data as u8)),
{
    do_user_memory(pte, addr, Some(data as u8))
}

impl UserAccess {
    /// What the system call returns: -1 when refused, the byte read, or 0
    /// after a write.
    pub fn ret(&self, byte_read: u8) -> (r: isize)
        ensures
            *self == UserAccess::Denied ==> r == -1,
            self matches UserAccess::Read { .. } ==> r == byte_read as isize,
            self matches UserAccess::Write { .. } ==> r == 0,
    {
        match self {
            UserAccess::Denied => -1,
            UserAccess::Read { .. } => byte_read as isize,
            UserAccess::Write { .. } => 0,
        }
    }
}


/// User memory is reached only through user-accessible pages: with no
/// entry, or an entry without the U bit, every access (read or write) is
/// refused. A read is granted only through a readable user page and a
/// write only through a writable one, and a granted access names the
/// entry's frame and the address's offset in its page, with the byte given.
pub proof fn lemma_user_access_needs_user_page(pte: Option<PageTableEntry>, addr: u64, data: Option<u8>)
    ensures
        pte is None ==> user_access_spec(pte, addr, data) == UserAccess::Denied,
        pte matches Some(e) && !pte_has(e.bits, PTE_U) ==> user_access_spec(pte, addr, data) == UserAccess::Denied,
        user_access_spec(pte, addr, data) matches UserAccess::Read { ppn, offset } ==> {
            &&& data is None
            &&& pte matches Some(e) && pte_has(e.bits, PTE_U) && pte_has(e.bits, PTE_R) && ppn.0 == pte_ppn(e.bits)
            &&& offset == addr % PAGE_SIZE
        },
        user_access_spec(pte, addr, data) matches UserAccess::Write { ppn, offset, byte } ==> {
            &&& data == Some(byte)
            &&& pte matches Some(e) && pte_has(e.bits, PTE_U) && pte_has(e.bits, PTE_W) && ppn.0 == pte_ppn(e.bits)
            &&& offset == addr % PAGE_SIZE
        },
        pte matches Some(e) && pte_has(e.bits, PTE_U) && pte_has(e.bits, PTE_R) && data is None
            ==> user_access_spec(pte, addr, data) is Read,
        pte matches Some(e) && pte_has(e.bits, PTE_U) && pte_has(e.bits, PTE_W) && data is Some
            ==> user_access_spec(pte, addr, data) is Write,
{
    vstd::arithmetic::div_mod::lemma_mod_mod(addr as int, 4096, 0x800_0000);
    assert(4096 * 0x800_0000 == 0x80_0000_0000int);
}

} // verus!
