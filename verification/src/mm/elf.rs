//! Loading an application from an ELF image: the program headers are read
//! with the `xmas_elf` crate, and the address space they call for is laid
//! out here.
use vstd::prelude::*;
use xmas_elf::program::Type::{
    Dynamic, GnuRelro, Interp, Load, Note, Null, OsSpecific, Phdr, ProcessorSpecific, ShLib, Tls,
};
use crate::config::{PAGE_SIZE, TRAMPOLINE, TRAP_CONTEXT_BASE, USER_STACK_SIZE};
use crate::mm::address::{VirtAddr, VirtPageNum, ceil_page, sign_extend_va};
use crate::mm::memory_set::{
    AreaView, MapArea, MapPermission, MapType, MemorySet, area_spec, chunk_count, va_of, MAP_R, MAP_W,
    MAP_X, MAP_U,
};

verus! {

/// Flag bit of a readable segment.
pub const ELF_FLAG_R: u32 = 4;
/// Flag bit of a writable segment.
pub const ELF_FLAG_W: u32 = 2;
/// Flag bit of an executable segment.
pub const ELF_FLAG_X: u32 = 1;

/// A program header, as far as loading needs it.
#[derive(Clone, Copy, PartialEq, Eq, Structural, Debug)]
pub struct ElfSegment {
    /// The segment is of type `LOAD`.
    pub load: bool,
    /// Virtual address of the segment.
    pub virtual_addr: u64,
    /// Size of the segment in memory.
    pub mem_size: u64,
    /// Offset of the segment's bytes in the file.
    pub offset: u64,
    /// Number of the segment's bytes in the file.
    pub file_size: u64,
    /// Readable.
    pub readable: bool,
    /// Writable.
    pub writable: bool,
    /// Executable.
    pub executable: bool,
}

/// What loading needs of an ELF image: its entry point and program headers.
pub struct ElfInfo {
    /// The entry point.
    pub entry_point: u64,
    /// The program headers, in order.
    pub segments: Vec<ElfSegment>,
}

/// The permission bits of a loaded segment: user-accessible, plus readable,
/// writable and executable as its flags say.
pub open spec fn segment_perm(s: ElfSegment) -> u8 {
    let r = if s.readable { MAP_U | MAP_R } else { MAP_U };
    let w = if s.writable { r | MAP_W } else { r };
    if s.executable { w | MAP_X } else { w }
}

/// The area of a loadable segment and the byte range of the file that fills
/// it; `None` when the segment cannot be loaded: its end overflows, its
/// bytes lie outside the file, no area can be built for it, or its bytes
/// need more pages than the area has.
pub open spec fn segment_plan(s: ElfSegment, data_len: nat) -> Option<(AreaView, (u64, u64))> {
    if s.virtual_addr + s.mem_size > u64::MAX || s.offset + s.file_size > data_len
        || s.file_size + PAGE_SIZE > usize::MAX {
        None
    } else {
        match area_spec(
            va_of(s.virtual_addr),
            va_of((s.virtual_addr + s.mem_size) as u64),
            MapType::Framed,
            segment_perm(s),
        ) {
            Some(a) => if a.start + chunk_count(s.file_size as int) <= a.end {
                Some((a, (s.offset, (s.offset + s.file_size) as u64)))
            } else {
                None
            },
            None => None,
        }
    }
}

/// The areas of the loadable segments among `segs`, in order, the file
/// ranges that fill them, and the end page of the last of them (0 when there
/// is none); `None` when one of them cannot be loaded.
pub open spec fn load_plan(segs: Seq<ElfSegment>, data_len: nat) -> Option<(Seq<AreaView>, Seq<(u64, u64)>, u64)>
    decreases segs.len(),
{
    if segs.len() == 0 {
        Some((Seq::empty(), Seq::empty(), 0))
    } else {
        match load_plan(segs.drop_last(), data_len) {
            None => None,
            Some(p) => if !segs.last().load {
                Some(p)
            } else {
                match segment_plan(segs.last(), data_len) {
                    None => None,
                    Some(sp) => Some((p.0.push(sp.0), p.1.push(sp.1), sp.0.end)),
                }
            },
        }
    }
}

/// The bottom of the user stack: one guard page above the end of the last
/// loaded segment, as a sign-extended address.
pub open spec fn stack_bottom(last_end: u64) -> int {
    sign_extend_va(((last_end as int * PAGE_SIZE) % 0x1_0000_0000_0000_0000) as u64) + PAGE_SIZE
}

/// The address space an application is loaded into, as plain values.
pub struct ElfLayoutView {
    /// Its areas: the loaded segments, the user stack, the empty heap area
    /// and the trap context page.
    pub areas: Seq<AreaView>,
    /// The file ranges that fill the areas of the loaded segments (the first
    /// areas, one range each).
    pub data_ranges: Seq<(u64, u64)>,
    /// The top of the user stack.
    pub user_stack_top: u64,
    /// The entry point.
    pub entry_point: u64,
}

/// The address space for the program headers `segs` of a file of
/// `data_len` bytes: the loaded segments; above the last of them a guard
/// page and the user stack, readable, writable and user-accessible; an empty
/// area at the stack top for the heap; the trap context page below the
/// trampoline, readable and writable. `None` when a segment cannot be
/// loaded or the stack does not fit.
pub open spec fn elf_layout_spec(segs: Seq<ElfSegment>, entry_point: u64, data_len: nat) -> Option<ElfLayoutView> {
    match load_plan(segs, data_len) {
        None => None,
        Some(p) => {
            let bottom = stack_bottom(p.2);
            let top = bottom + USER_STACK_SIZE;
            if top > u64::MAX {
                None
            } else {
                let stack = area_spec(va_of(bottom as u64), va_of(top as u64), MapType::Framed, (MAP_R | MAP_W) | MAP_U);
                let heap = area_spec(va_of(top as u64), va_of(top as u64), MapType::Framed, (MAP_R | MAP_W) | MAP_U);
                let trap = area_spec(va_of(TRAP_CONTEXT_BASE), va_of(TRAMPOLINE), MapType::Framed, MAP_R | MAP_W);
                if stack is Some && heap is Some && trap is Some {
                    Some(
                        ElfLayoutView {
                            areas: p.0.push(stack->0).push(heap->0).push(trap->0),
                            data_ranges: p.1,
                            user_stack_top: top as u64,
                            entry_point,
                        },
                    )
                } else {
                    None
                }
            }
        },
    }
}

/// A loading plan stops being possible once one of its segments cannot be
/// loaded.
proof fn lemma_load_plan_none_extends(segs: Seq<ElfSegment>, data_len: nat, i: int)
    requires
        0 <= i <= segs.len(),
        load_plan(segs.take(i), data_len) is None,
    ensures
        load_plan(segs, data_len) is None,
    decreases segs.len() - i,
{
    if i < segs.len() {
        assert(segs.take(i + 1).drop_last() =~= segs.take(i));
        lemma_load_plan_none_extends(segs, data_len, i + 1);
    } else {
        assert(segs.take(i) =~= segs);
    }
}

/// An application's address space, ready to be mapped.
pub struct ElfLayout {
    /// Its areas.
    pub memory_set: MemorySet,
    /// The file ranges that fill the first areas.
    pub data_ranges: Vec<(u64, u64)>,
    /// The top of the user stack.
    pub user_stack_top: u64,
    /// The entry point.
    pub entry_point: u64,
}

/// The layout matches the plan.
pub open spec fn layout_matches(l: ElfLayout, v: ElfLayoutView) -> bool {
    &&& l.memory_set@ == v.areas
    &&& l.data_ranges@ == v.data_ranges
    &&& l.user_stack_top == v.user_stack_top
    &&& l.entry_point == v.entry_point
}

/// The area `MapArea::new` would build, or `None` where it cannot build one.
fn checked_area(start_va: VirtAddr, end_va: VirtAddr, map_type: MapType, perm: MapPermission) -> (r: Option<MapArea>)
    ensures
        match area_spec(start_va.0, end_va.0, map_type, perm@) {
            Some(a) => r matches Some(m) && m@ == a,
            None => r is None,
        },
{
    if end_va.0 <= u64::MAX - PAGE_SIZE + 1 {
        let s = start_va.floor();
        let e = end_va.ceil();
        if s.0 <= e.0 {
            Some(MapArea::new(start_va, end_va, map_type, perm))
        } else {
            None
        }
    } else {
        None
    }
}

/// The permission of a loaded segment.
fn segment_permission(s: &ElfSegment) -> (r: MapPermission)
    ensures
        r@ == segment_perm(*s),
{
    let mut p = MapPermission::U();
    if s.readable {
        p = p.union(MapPermission::R());
    }
    if s.writable {
        p = p.union(MapPermission::W());
    }
    if s.executable {
        p = p.union(MapPermission::X());
    }
    p
}

/// The area and file range of a loadable segment, or `None` when it cannot
/// be loaded.
fn plan_segment(s: &ElfSegment, data_len: usize) -> (r: Option<(MapArea, (u64, u64))>)
    ensures
        match segment_plan(*s, data_len as nat) {
            Some(p) => r matches Some(q) && q.0@ == p.0 && q.1 == p.1,
            None => r is None,
        },
{
    if s.virtual_addr > u64::MAX - s.mem_size {
        return None;
    }
    if s.offset > data_len as u64 || s.file_size > data_len as u64 - s.offset {
        return None;
    }
    if s.file_size as usize > usize::MAX - 4096 {
        return None;
    }
    let start_va = VirtAddr::from(s.virtual_addr);
    let end_va = VirtAddr::from(s.virtual_addr + s.mem_size);
    match checked_area(start_va, end_va, MapType::Framed, segment_permission(s)) {
        Some(area) => {
            let range = area.vpn_range();
            let pages = range.get_end().0 - range.get_start().0;
            let len = s.file_size;
            let count: u64 = if len == 0 { 1 } else { len / PAGE_SIZE + if len % PAGE_SIZE == 0 { 0 } else { 1 } };
            proof {
                if len > 0 {
                    assert(count == chunk_count(len as int)) by (nonlinear_arith)
                        requires
                            len > 0,
                            count == len / 4096 + if len % 4096 == 0 { 0int } else { 1int },
                            chunk_count(len as int) == (len + 4095) / 4096,
                    ;
                }
            }
            if range.get_start().0 <= range.get_end().0 && count <= pages {
                Some((area, (s.offset, s.offset + s.file_size)))
            } else {
                None
            }
        },
        None => None,
    }
}

impl MemorySet {
    /// Lays out the address space for the program headers and entry point in
    /// `info` of an ELF file of `data_len` bytes; `None` when a loadable
    /// segment cannot be loaded or the user stack does not fit.
    pub fn from_elf_info(info: &ElfInfo, data_len: usize) -> (r: Option<ElfLayout>)
        ensures
            match elf_layout_spec(info.segments@, info.entry_point, data_len as nat) {
                Some(v) => r matches Some(l) && layout_matches(l, v),
                None => r is None,
            },
    {
        let ghost segs = info.segments@;
        let mut memory_set = MemorySet::new_bare();
        let mut data_ranges: Vec<(u64, u64)> = Vec::new();
        let mut last_end: u64 = 0;
        let mut i: usize = 0;
        while i < info.segments.len()
            invariant
                i <= segs.len(),
                segs == info.segments@,
                load_plan(segs.take(i as int), data_len as nat) == Some(
                    (memory_set@, data_ranges@, last_end),
                ),
            decreases segs.len() - i,
        {
            let seg = info.segments[i];
            assert(segs.take(i + 1).drop_last() =~= segs.take(i as int));
            assert(segs.take(i + 1).last() == seg);
            if seg.load {
                match plan_segment(&seg, data_len) {
                    Some((area, range)) => {
                        last_end = area.vpn_range().get_end().0;
                        memory_set.push(area);
                        data_ranges.push(range);
                    },
                    None => {
                        proof {
                            lemma_load_plan_none_extends(segs, data_len as nat, i + 1);
                        }
                        return None;
                    },
                }
            }
            i = i + 1;
        }
        assert(segs.take(i as int) =~= segs);
        let last_va = VirtAddr::from_page(VirtPageNum(last_end));
        let last_addr = u64::from(last_va);
        if last_addr > u64::MAX - PAGE_SIZE - USER_STACK_SIZE {
            return None;
        }
        let user_stack_bottom = last_addr + PAGE_SIZE;
        let user_stack_top = user_stack_bottom + USER_STACK_SIZE;
        let rwu = MapPermission::R().union(MapPermission::W()).union(MapPermission::U());
        let stack = checked_area(VirtAddr::from(user_stack_bottom), VirtAddr::from(user_stack_top), MapType::Framed, rwu);
        let heap = checked_area(VirtAddr::from(user_stack_top), VirtAddr::from(user_stack_top), MapType::Framed, rwu);
        let trap = checked_area(
            VirtAddr::from(TRAP_CONTEXT_BASE),
            VirtAddr::from(TRAMPOLINE),
            MapType::Framed,
            MapPermission::R().union(MapPermission::W()),
        );
        match (stack, heap, trap) {
            (Some(stack), Some(heap), Some(trap)) => {
                memory_set.push(stack);
                memory_set.push(heap);
                memory_set.push(trap);
                Some(ElfLayout { memory_set, data_ranges, user_stack_top, entry_point: info.entry_point })
            },
            _ => None,
        }
    }
}


/// The image starts with an ELF identification of a 32- or 64-bit file: at
/// least 16 bytes, the magic number `7f 'E' 'L' 'F'`, and class 1 or 2.
pub open spec fn elf_ident_ok(data: Seq<u8>) -> bool {
    &&& data.len() >= 16
    &&& data[0] == 0x7f && data[1] == 0x45 && data[2] == 0x4c && data[3] == 0x46
    &&& data[4] == 1 || data[4] == 2
}

/// A file with a valid identification also holds the rest of its header:
/// 52 bytes for a 32-bit file, 64 for a 64-bit one.
pub open spec fn elf_header_fits(data: Seq<u8>) -> bool {
    elf_ident_ok(data) ==> data.len() >= (if data[4] == 1 { 52int } else { 64int })
}

/// The two bytes of `data` at `at`, least significant first.
pub open spec fn le16(data: Seq<u8>, at: int) -> int {
    data[at] + 256 * data[at + 1]
}

/// The four bytes of `data` at `at`, least significant first.
pub open spec fn le32(data: Seq<u8>, at: int) -> int {
    le16(data, at) + 65536 * le16(data, at + 2)
}

/// The eight bytes of `data` at `at`, least significant first.
pub open spec fn le64(data: Seq<u8>, at: int) -> int {
    le32(data, at) + 0x1_0000_0000 * le32(data, at + 4)
}

/// The file is a 64-bit one (class 2); else a 32-bit one.
pub open spec fn elf_is_64(data: Seq<u8>) -> bool {
    data[4] == 2
}

/// The entry point the file header announces.
pub open spec fn elf_entry_spec(data: Seq<u8>) -> int {
    if elf_is_64(data) { le64(data, 24) } else { le32(data, 24) }
}

/// Where the program header table starts in the file.
pub open spec fn elf_ph_offset_spec(data: Seq<u8>) -> int {
    if elf_is_64(data) { le64(data, 32) } else { le32(data, 28) }
}

/// The size of one entry of the program header table.
pub open spec fn elf_ph_entry_size_spec(data: Seq<u8>) -> int {
    if elf_is_64(data) { le16(data, 54) } else { le16(data, 42) }
}

/// The number of program headers.
pub open spec fn elf_ph_count_spec(data: Seq<u8>) -> int {
    if elf_is_64(data) { le16(data, 56) } else { le16(data, 44) }
}

/// The size of a program header of the file's class.
pub open spec fn elf_ph_size(data: Seq<u8>) -> int {
    if elf_is_64(data) { 56 } else { 32 }
}

/// The alignment of a program header of the file's class.
pub open spec fn elf_ph_align(data: Seq<u8>) -> int {
    if elf_is_64(data) { 8 } else { 4 }
}

/// The program header table lies inside the file, with entries large enough
/// for a program header and placed at its alignment; or there is no program
/// header at all.
pub open spec fn elf_ph_table_ok(data: Seq<u8>) -> bool {
    let n = elf_ph_count_spec(data);
    let off = elf_ph_offset_spec(data);
    let es = elf_ph_entry_size_spec(data);
    n == 0 || {
        &&& off > 0
        &&& es >= elf_ph_size(data)
        &&& es % elf_ph_align(data) == 0
        &&& off % elf_ph_align(data) == 0
        &&& off + n * es <= data.len()
    }
}

/// Where program header `i` starts in the file.
pub open spec fn elf_ph_start(data: Seq<u8>, i: int) -> int {
    elf_ph_offset_spec(data) + i * elf_ph_entry_size_spec(data)
}

/// The type word of program header `i`.
pub open spec fn elf_ph_type(data: Seq<u8>, i: int) -> int {
    le32(data, elf_ph_start(data, i))
}

/// The flag word of program header `i`.
pub open spec fn elf_ph_flags(data: Seq<u8>, i: int) -> int {
    let s = elf_ph_start(data, i);
    if elf_is_64(data) { le32(data, s + 4) } else { le32(data, s + 24) }
}

/// The file offset of the bytes of the segment of program header `i`.
pub open spec fn elf_ph_file_offset(data: Seq<u8>, i: int) -> int {
    let s = elf_ph_start(data, i);
    if elf_is_64(data) { le64(data, s + 8) } else { le32(data, s + 4) }
}

/// The virtual address of the segment of program header `i`.
pub open spec fn elf_ph_vaddr(data: Seq<u8>, i: int) -> int {
    let s = elf_ph_start(data, i);
    if elf_is_64(data) { le64(data, s + 16) } else { le32(data, s + 8) }
}

/// The number of file bytes of the segment of program header `i`.
pub open spec fn elf_ph_filesz(data: Seq<u8>, i: int) -> int {
    let s = elf_ph_start(data, i);
    if elf_is_64(data) { le64(data, s + 32) } else { le32(data, s + 16) }
}

/// The size in memory of the segment of program header `i`.
pub open spec fn elf_ph_memsz(data: Seq<u8>, i: int) -> int {
    let s = elf_ph_start(data, i);
    if elf_is_64(data) { le64(data, s + 40) } else { le32(data, s + 20) }
}

/// A type word that names a segment type: one of the eight standard types,
/// or one in the OS-specific or processor-specific ranges.
pub open spec fn ph_type_valid(t: int) -> bool {
    t <= 7 || (0x6000_0000 <= t <= 0x7fff_ffff)
}

/// Program header `i` as loading sees it.
pub open spec fn elf_segment_spec(data: Seq<u8>, i: int) -> ElfSegment {
    let flags = elf_ph_flags(data, i) as u32;
    ElfSegment {
        load: elf_ph_type(data, i) == 1,
        virtual_addr: elf_ph_vaddr(data, i) as u64,
        mem_size: elf_ph_memsz(data, i) as u64,
        offset: elf_ph_file_offset(data, i) as u64,
        file_size: elf_ph_filesz(data, i) as u64,
        readable: flags & ELF_FLAG_R == ELF_FLAG_R,
        writable: flags & ELF_FLAG_W == ELF_FLAG_W,
        executable: flags & ELF_FLAG_X == ELF_FLAG_X,
    }
}

/// All program headers of the file, in order.
pub open spec fn elf_segments_spec(data: Seq<u8>) -> Seq<ElfSegment> {
    Seq::new(elf_ph_count_spec(data) as nat, |i: int| elf_segment_spec(data, i))
}

/// The image can be read: its identification is valid, its header is
/// complete, its program header table lies inside it and every program
/// header has a valid type.
pub open spec fn elf_readable(data: Seq<u8>) -> bool {
    &&& elf_ident_ok(data)
    &&& elf_header_fits(data)
    &&& elf_ph_table_ok(data)
    &&& forall|i: int| 0 <= i < elf_ph_count_spec(data) ==> ph_type_valid(#[trigger] elf_ph_type(data, i))
}

/// The address space of the application in the image, or `None` when the
/// image cannot be read or its segments cannot be loaded.
pub open spec fn elf_image_layout(data: Seq<u8>) -> Option<ElfLayoutView> {
    if elf_readable(data) {
        elf_layout_spec(elf_segments_spec(data), elf_entry_spec(data) as u64, data.len())
    } else {
        None
    }
}

/// The little-endian reads are the values of their byte counts.
proof fn lemma_le_bounds(data: Seq<u8>, at: int)
    requires
        0 <= at,
        at + 8 <= data.len(),
    ensures
        0 <= le16(data, at) < 0x1_0000,
        0 <= le32(data, at) < 0x1_0000_0000,
        0 <= le64(data, at) <= u64::MAX,
{
    assert(0 <= data[at] < 256 && 0 <= data[at + 1] < 256);
    assert(0 <= le16(data, at + 2) < 0x1_0000) by {
        assert(0 <= data[at + 2] < 256 && 0 <= data[at + 3] < 256);
    }
    assert(0 <= le32(data, at + 4) < 0x1_0000_0000) by {
        assert(0 <= data[at + 4] < 256 && 0 <= data[at + 5] < 256);
        assert(0 <= data[at + 6] < 256 && 0 <= data[at + 7] < 256);
    }
}

/// `ElfFile::new` and `HeaderPt2::entry_point`: the entry point of the file
/// header. `xmas_elf` reads the header in place, so the bytes are first
/// copied to an address aligned to 8, as its reads assert. It reads in the
/// machine's byte order; on the little-endian machines this kernel runs on
/// (RISC-V, and the hosts of its tests) that is the little-endian value
/// stated here.
#[verifier::external_body]
fn elf_entry_point(data: &[u8]) -> (r: Option<u64>)
    requires
        elf_ident_ok(data@),
        elf_header_fits(data@),
    ensures
        r == Some(elf_entry_spec(data@) as u64),
{
    let mut buf: Vec<u8> = Vec::with_capacity(data.len() + 8);
    buf.extend(core::iter::repeat(0u8).take(buf.as_ptr().align_offset(8)).chain(data.iter().copied()));
    match xmas_elf::ElfFile::new(&buf[buf.len() - data.len()..]) {
        Ok(elf) => Some(elf.header.pt2.entry_point()),
        Err(_) => None,
    }
}

/// `ElfFile::new` and `HeaderPt2::ph_offset`: where the program header
/// table starts, read as `elf_entry_point` reads (aligned copy and byte
/// order as there).
#[verifier::external_body]
fn elf_ph_offset(data: &[u8]) -> (r: Option<u64>)
    requires
        elf_ident_ok(data@),
        elf_header_fits(data@),
    ensures
        r == Some(elf_ph_offset_spec(data@) as u64),
{
    let mut buf: Vec<u8> = Vec::with_capacity(data.len() + 8);
    buf.extend(core::iter::repeat(0u8).take(buf.as_ptr().align_offset(8)).chain(data.iter().copied()));
    match xmas_elf::ElfFile::new(&buf[buf.len() - data.len()..]) {
        Ok(elf) => Some(elf.header.pt2.ph_offset()),
        Err(_) => None,
    }
}

/// `ElfFile::new` and `HeaderPt2::ph_entry_size`: the size of an entry of
/// the program header table (aligned copy and byte order as for
/// `elf_entry_point`).
#[verifier::external_body]
fn elf_ph_entry_size(data: &[u8]) -> (r: Option<u16>)
    requires
        elf_ident_ok(data@),
        elf_header_fits(data@),
    ensures
        r == Some(elf_ph_entry_size_spec(data@) as u16),
{
    let mut buf: Vec<u8> = Vec::with_capacity(data.len() + 8);
    buf.extend(core::iter::repeat(0u8).take(buf.as_ptr().align_offset(8)).chain(data.iter().copied()));
    match xmas_elf::ElfFile::new(&buf[buf.len() - data.len()..]) {
        Ok(elf) => Some(elf.header.pt2.ph_entry_size()),
        Err(_) => None,
    }
}

/// `ElfFile::new` and `HeaderPt2::ph_count`: the number of program headers
/// (aligned copy and byte order as for `elf_entry_point`).
#[verifier::external_body]
fn elf_ph_count(data: &[u8]) -> (r: Option<u16>)
    requires
        elf_ident_ok(data@),
        elf_header_fits(data@),
    ensures
        r == Some(elf_ph_count_spec(data@) as u16),
{
    let mut buf: Vec<u8> = Vec::with_capacity(data.len() + 8);
    buf.extend(core::iter::repeat(0u8).take(buf.as_ptr().align_offset(8)).chain(data.iter().copied()));
    match xmas_elf::ElfFile::new(&buf[buf.len() - data.len()..]) {
        Ok(elf) => Some(elf.header.pt2.ph_count()),
        Err(_) => None,
    }
}

/// The type of a segment, as `xmas_elf` names the type words.
#[derive(Clone, Copy, PartialEq, Eq, Structural, Debug)]
pub enum SegmentType {
    /// Unused entry (0).
    Null,
    /// Loadable segment (1).
    Load,
    /// Dynamic linking information (2).
    Dynamic,
    /// Interpreter path (3).
    Interp,
    /// Auxiliary information (4).
    Note,
    /// Reserved (5).
    ShLib,
    /// The program header table itself (6).
    Phdr,
    /// Thread-local storage template (7).
    Tls,
    /// Read-only after relocation (`0x6474e552`).
    GnuRelro,
    /// Another OS-specific type word.
    OsSpecific(u32),
    /// A processor-specific type word.
    ProcessorSpecific(u32),
}

/// The segment type a type word names, or `None` for a word that names no
/// type.
pub open spec fn segment_type_spec(t: int) -> Option<SegmentType> {
    if t == 0 {
        Some(SegmentType::Null)
    } else if t == 1 {
        Some(SegmentType::Load)
    } else if t == 2 {
        Some(SegmentType::Dynamic)
    } else if t == 3 {
        Some(SegmentType::Interp)
    } else if t == 4 {
        Some(SegmentType::Note)
    } else if t == 5 {
        Some(SegmentType::ShLib)
    } else if t == 6 {
        Some(SegmentType::Phdr)
    } else if t == 7 {
        Some(SegmentType::Tls)
    } else if t == 0x6474_e552 {
        Some(SegmentType::GnuRelro)
    } else if 0x6000_0000 <= t <= 0x6fff_ffff {
        Some(SegmentType::OsSpecific(t as u32))
    } else if 0x7000_0000 <= t <= 0x7fff_ffff {
        Some(SegmentType::ProcessorSpecific(t as u32))
    } else {
        None
    }
}

/// `ElfFile::program_header` and `ProgramHeader::get_type`: the type of
/// program header `index`, or `None` when its type word names no type. The
/// table must lie inside the file (else `program_header` panics); aligned
/// copy and byte order as for `elf_entry_point`.
#[verifier::external_body]
fn ph_type(data: &[u8], index: u16) -> (r: Option<SegmentType>)
    requires
        elf_ident_ok(data@),
        elf_header_fits(data@),
        elf_ph_table_ok(data@),
        index < elf_ph_count_spec(data@),
    ensures
        r == segment_type_spec(elf_ph_type(data@, index as int)),
{
    let mut buf: Vec<u8> = Vec::with_capacity(data.len() + 8);
    buf.extend(core::iter::repeat(0u8).take(buf.as_ptr().align_offset(8)).chain(data.iter().copied()));
    Some(match xmas_elf::ElfFile::new(&buf[buf.len() - data.len()..]).ok()?.program_header(index).ok()?.get_type().ok()? {
        Null => SegmentType::Null,
        Load => SegmentType::Load,
        Dynamic => SegmentType::Dynamic,
        Interp => SegmentType::Interp,
        Note => SegmentType::Note,
        ShLib => SegmentType::ShLib,
        Phdr => SegmentType::Phdr,
        Tls => SegmentType::Tls,
        GnuRelro => SegmentType::GnuRelro,
        OsSpecific(t) => SegmentType::OsSpecific(t),
        ProcessorSpecific(t) => SegmentType::ProcessorSpecific(t),
    })
}

/// `ElfFile::program_header` and `ProgramHeader::flags`: the flag word of
/// program header `index` (conditions as for `ph_type`).
#[verifier::external_body]
fn ph_flags(data: &[u8], index: u16) -> (r: Option<u32>)
    requires
        elf_ident_ok(data@),
        elf_header_fits(data@),
        elf_ph_table_ok(data@),
        index < elf_ph_count_spec(data@),
    ensures
        r == Some(elf_ph_flags(data@, index as int) as u32),
{
    let mut buf: Vec<u8> = Vec::with_capacity(data.len() + 8);
    buf.extend(core::iter::repeat(0u8).take(buf.as_ptr().align_offset(8)).chain(data.iter().copied()));
    match xmas_elf::ElfFile::new(&buf[buf.len() - data.len()..]) {
        Ok(elf) => match elf.program_header(index) {
            Ok(ph) => Some(ph.flags().0),
            Err(_) => None,
        },
        Err(_) => None,
    }
}

/// `ElfFile::program_header` and `ProgramHeader::offset`: where the bytes
/// of segment `index` start in the file (conditions as for `ph_type`).
#[verifier::external_body]
fn ph_offset(data: &[u8], index: u16) -> (r: Option<u64>)
    requires
        elf_ident_ok(data@),
        elf_header_fits(data@),
        elf_ph_table_ok(data@),
        index < elf_ph_count_spec(data@),
    ensures
        r == Some(elf_ph_file_offset(data@, index as int) as u64),
{
    let mut buf: Vec<u8> = Vec::with_capacity(data.len() + 8);
    buf.extend(core::iter::repeat(0u8).take(buf.as_ptr().align_offset(8)).chain(data.iter().copied()));
    match xmas_elf::ElfFile::new(&buf[buf.len() - data.len()..]) {
        Ok(elf) => match elf.program_header(index) {
            Ok(ph) => Some(ph.offset()),
            Err(_) => None,
        },
        Err(_) => None,
    }
}

/// `ElfFile::program_header` and `ProgramHeader::virtual_addr`: the virtual
/// address of segment `index` (conditions as for `ph_type`).
#[verifier::external_body]
fn ph_virtual_addr(data: &[u8], index: u16) -> (r: Option<u64>)
    requires
        elf_ident_ok(data@),
        elf_header_fits(data@),
        elf_ph_table_ok(data@),
        index < elf_ph_count_spec(data@),
    ensures
        r == Some(elf_ph_vaddr(data@, index as int) as u64),
{
    let mut buf: Vec<u8> = Vec::with_capacity(data.len() + 8);
    buf.extend(core::iter::repeat(0u8).take(buf.as_ptr().align_offset(8)).chain(data.iter().copied()));
    match xmas_elf::ElfFile::new(&buf[buf.len() - data.len()..]) {
        Ok(elf) => match elf.program_header(index) {
            Ok(ph) => Some(ph.virtual_addr()),
            Err(_) => None,
        },
        Err(_) => None,
    }
}

/// `ElfFile::program_header` and `ProgramHeader::file_size`: the number of
/// file bytes of segment `index` (conditions as for `ph_type`).
#[verifier::external_body]
fn ph_file_size(data: &[u8], index: u16) -> (r: Option<u64>)
    requires
        elf_ident_ok(data@),
        elf_header_fits(data@),
        elf_ph_table_ok(data@),
        index < elf_ph_count_spec(data@),
    ensures
        r == Some(elf_ph_filesz(data@, index as int) as u64),
{
    let mut buf: Vec<u8> = Vec::with_capacity(data.len() + 8);
    buf.extend(core::iter::repeat(0u8).take(buf.as_ptr().align_offset(8)).chain(data.iter().copied()));
    match xmas_elf::ElfFile::new(&buf[buf.len() - data.len()..]) {
        Ok(elf) => match elf.program_header(index) {
            Ok(ph) => Some(ph.file_size()),
            Err(_) => None,
        },
        Err(_) => None,
    }
}

/// `ElfFile::program_header` and `ProgramHeader::mem_size`: the size in
/// memory of segment `index` (conditions as for `ph_type`).
#[verifier::external_body]
fn ph_mem_size(data: &[u8], index: u16) -> (r: Option<u64>)
    requires
        elf_ident_ok(data@),
        elf_header_fits(data@),
        elf_ph_table_ok(data@),
        index < elf_ph_count_spec(data@),
    ensures
        r == Some(elf_ph_memsz(data@, index as int) as u64),
{
    let mut buf: Vec<u8> = Vec::with_capacity(data.len() + 8);
    buf.extend(core::iter::repeat(0u8).take(buf.as_ptr().align_offset(8)).chain(data.iter().copied()));
    match xmas_elf::ElfFile::new(&buf[buf.len() - data.len()..]) {
        Ok(elf) => match elf.program_header(index) {
            Ok(ph) => Some(ph.mem_size()),
            Err(_) => None,
        },
        Err(_) => None,
    }
}

/// Whether a segment's flag word marks it readable, writable and executable
/// (what `xmas_elf`'s `Flags::is_read`, `is_write` and `is_execute` test).
pub fn decode_segment_flags(flags: u32) -> (r: (bool, bool, bool))
    ensures
        r == (flags & ELF_FLAG_R == ELF_FLAG_R, flags & ELF_FLAG_W == ELF_FLAG_W, flags & ELF_FLAG_X == ELF_FLAG_X),
{
    (flags & ELF_FLAG_R == ELF_FLAG_R, flags & ELF_FLAG_W == ELF_FLAG_W, flags & ELF_FLAG_X == ELF_FLAG_X)
}

/// Whether the image has a valid identification and a complete header.
pub fn elf_header_ok(data: &[u8]) -> (r: bool)
    ensures
        r == (elf_ident_ok(data@) && elf_header_fits(data@)),
{
    if data.len() < 16 {
        return false;
    }
    if !(data[0] == 0x7f && data[1] == 0x45 && data[2] == 0x4c && data[3] == 0x46) {
        return false;
    }
    if data[4] == 1 {
        data.len() >= 52
    } else if data[4] == 2 {
        data.len() >= 64
    } else {
        false
    }
}

/// Whether the program header table lies inside the file with entries
/// large and aligned enough, or there is no program header.
fn ph_table_fits(data: &[u8], offset: u64, entry_size: u16, count: u16) -> (r: bool)
    requires
        elf_ident_ok(data@),
        elf_header_fits(data@),
        offset == elf_ph_offset_spec(data@),
        entry_size == elf_ph_entry_size_spec(data@),
        count == elf_ph_count_spec(data@),
    ensures
        r == elf_ph_table_ok(data@),
{
    if count == 0 {
        return true;
    }
    let (size, align): (u64, u64) = if data[4] == 2 { (56, 8) } else { (32, 4) };
    let es = entry_size as u64;
    let n = count as u64;
    assert(n * es <= 0xffff * 0xffff) by (nonlinear_arith)
        requires
            n <= 0xffff,
            es <= 0xffff,
    ;
    offset > 0 && es >= size && es % align == 0 && offset % align == 0 && offset <= data.len() as u64
        && n * es <= data.len() as u64 - offset
}

/// Program header `index` as plain values; `None` when its type word names
/// no type.
fn read_segment(data: &[u8], index: u16) -> (r: Option<ElfSegment>)
    requires
        elf_ident_ok(data@),
        elf_header_fits(data@),
        elf_ph_table_ok(data@),
        index < elf_ph_count_spec(data@),
    ensures
        r == (if ph_type_valid(elf_ph_type(data@, index as int)) {
            Some(elf_segment_spec(data@, index as int))
        } else {
            None
        }),
{
    let load = match ph_type(data, index) {
        Some(SegmentType::Load) => true,
        Some(_) => false,
        None => return None,
    };
    let (Some(flags), Some(virtual_addr), Some(mem_size), Some(offset), Some(file_size)) = (
        ph_flags(data, index),
        ph_virtual_addr(data, index),
        ph_mem_size(data, index),
        ph_offset(data, index),
        ph_file_size(data, index),
    ) else {
        return None;
    };
    let (readable, writable, executable) = decode_segment_flags(flags);
    Some(ElfSegment { load, virtual_addr, mem_size, offset, file_size, readable, writable, executable })
}

/// Reads the entry point and program headers of an ELF image; `None`
/// exactly when the image cannot be read (see `elf_readable`).
pub fn read_elf(data: &[u8]) -> (r: Option<ElfInfo>)
    ensures
        match r {
            Some(info) => {
                &&& elf_readable(data@)
                &&& info.entry_point == elf_entry_spec(data@) as u64
                &&& info.segments@ == elf_segments_spec(data@)
            },
            None => !elf_readable(data@),
        },
{
    if !elf_header_ok(data) {
        return None;
    }
    let (Some(entry_point), Some(offset), Some(entry_size), Some(count)) = (
        elf_entry_point(data),
        elf_ph_offset(data),
        elf_ph_entry_size(data),
        elf_ph_count(data),
    ) else {
        return None;
    };
    proof {
        lemma_le_bounds(data@, if elf_is_64(data@) { 48 } else { 40 });
        lemma_le_bounds(data@, 24);
    }
    if !ph_table_fits(data, offset, entry_size, count) {
        return None;
    }
    let mut segments: Vec<ElfSegment> = Vec::new();
    let mut i: u16 = 0;
    while i < count
        invariant
            i <= count,
            count == elf_ph_count_spec(data@),
            elf_ident_ok(data@),
            elf_header_fits(data@),
            elf_ph_table_ok(data@),
            segments@ == Seq::new(i as nat, |j: int| elf_segment_spec(data@, j)),
            forall|j: int| 0 <= j < i ==> ph_type_valid(#[trigger] elf_ph_type(data@, j)),
        decreases count - i,
    {
        match read_segment(data, i) {
            Some(seg) => segments.push(seg),
            None => return None,
        }
        proof {
            assert(segments@ =~= Seq::new((i + 1) as nat, |j: int| elf_segment_spec(data@, j)));
        }
        i = i + 1;
    }
    proof {
        assert(segments@ =~= elf_segments_spec(data@));
    }
    Some(ElfInfo { entry_point, segments })
}

impl MemorySet {
    /// The address space of the application in the ELF image `elf_data`,
    /// with the program headers it was laid out from; `None` when the image
    /// cannot be read or its segments cannot be loaded.
    pub fn from_elf(elf_data: &[u8]) -> (r: Option<(ElfInfo, ElfLayout)>)
        ensures
            match elf_image_layout(elf_data@) {
                Some(v) => r matches Some((info, layout)) && {
                    &&& info.entry_point == elf_entry_spec(elf_data@) as u64
                    &&& info.segments@ == elf_segments_spec(elf_data@)
                    &&& layout_matches(layout, v)
                },
                None => r is None,
            },
    {
        let info = match read_elf(elf_data) {
            Some(info) => info,
            None => return None,
        };
        match MemorySet::from_elf_info(&info, elf_data.len()) {
            Some(layout) => Some((info, layout)),
            None => None,
        }
    }
}


/// A loaded segment is user-accessible, and readable, writable and
/// executable exactly as its program header's flags say (`PF_R` = 4,
/// `PF_W` = 2, `PF_X` = 1).
pub proof fn lemma_segment_permission(data: Seq<u8>, i: int)
    ensures
        ({
            let s = elf_segment_spec(data, i);
            let f = elf_ph_flags(data, i) as u32;
            let b = segment_perm(s);
            &&& b & MAP_U != 0
            &&& (b & MAP_R != 0) == (f & 4 != 0)
            &&& (b & MAP_W != 0) == (f & 2 != 0)
            &&& (b & MAP_X != 0) == (f & 1 != 0)
        }),
{
    let f = elf_ph_flags(data, i) as u32;
    let r = f & ELF_FLAG_R == ELF_FLAG_R;
    let w = f & ELF_FLAG_W == ELF_FLAG_W;
    let x = f & ELF_FLAG_X == ELF_FLAG_X;
    assert((f & 4u32 == 4u32) == (f & 4u32 != 0) && (f & 2u32 == 2u32) == (f & 2u32 != 0) && (f & 1u32 == 1u32) == (
    f & 1u32 != 0)) by (bit_vector);
    assert({
        let r1: u8 = if r { 16u8 | 2u8 } else { 16u8 };
        let w1: u8 = if w { r1 | 4u8 } else { r1 };
        let b: u8 = if x { w1 | 8u8 } else { w1 };
        &&& b & 16u8 != 0
        &&& (b & 2u8 != 0) == r
        &&& (b & 4u8 != 0) == w
        &&& (b & 8u8 != 0) == x
    }) by (bit_vector);
}

} // verus!
