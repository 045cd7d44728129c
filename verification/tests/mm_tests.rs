use rcore_os::mm::address::{PhysAddr, PhysPageNum, SimpleRange, VirtAddr, VirtPageNum};
use rcore_os::mm::debug::{format_flags, print_mappings_range, MappingLine};
use rcore_os::mm::elf::{elf_header_ok, read_elf, ElfInfo, ElfSegment};
use rcore_os::mm::frame_allocator::StackFrameAllocator;
use rcore_os::mm::map::parse_prot_flags;
use rcore_os::mm::map_record::MapRecordManager;
use rcore_os::mm::memory_set::{
    kernel_layout_valid, kernel_stack_position, trampoline_mapping, KernelLayout, MapArea, MapPermission, MapType, MemorySet,
};
use rcore_os::mm::mmap_area::MmapAreaManager;
use rcore_os::mm::page_table::{map_entry, token_of, root_ppn_of_token, PTEFlags, PageTable, PageTableEntry, WalkPosition};
use rcore_os::mm::user::{do_user_memory, read_user_memory, translated_byte_buffer, write_user_memory, UserAccess};

#[test]
fn address_floor_ceil_offset() {
    let va = VirtAddr(0x1234);
    assert_eq!(va.floor(), VirtPageNum(1));
    assert_eq!(va.ceil(), VirtPageNum(2));
    assert_eq!(va.page_offset(), 0x234);
    assert!(!va.aligned());
    assert!(VirtAddr(0x2000).aligned());
    assert_eq!(VirtAddr(0x2000).ceil(), VirtPageNum(2));
    let pa = PhysAddr(0x2234);
    assert_eq!(pa.floor(), PhysPageNum(2));
    assert_eq!(pa.ceil(), PhysPageNum(3));
    assert_eq!(pa.page_offset(), 0x234);
}

#[test]
fn address_conversions_mask_and_sign_extend() {
    assert_eq!(VirtAddr::from(u64::MAX), VirtAddr(0x7f_ffff_ffff));
    assert_eq!(PhysAddr::from(u64::MAX), PhysAddr(0xff_ffff_ffff_ffff));
    assert_eq!(u64::from(VirtAddr(0x40_0000_0000)), 0xffff_ffc0_0000_0000);
    assert_eq!(u64::from(VirtAddr(0x1000)), 0x1000);
    assert_eq!(VirtAddr::from_page(VirtPageNum(3)), VirtAddr(0x3000));
}

#[test]
fn vpn_indexes() {
    let vpn = VirtPageNum((1 << 18) * 3 + (1 << 9) * 5 + 7);
    assert_eq!(vpn.indexes(), [3, 5, 7]);
}

#[test]
fn simple_range_iterates() {
    let r = SimpleRange::new(VirtPageNum(3), VirtPageNum(6));
    assert_eq!(r.get_start(), VirtPageNum(3));
    assert_eq!(r.get_end(), VirtPageNum(6));
    let mut it = r.into_iter();
    assert_eq!(it.next(), Some(VirtPageNum(3)));
    assert_eq!(it.next(), Some(VirtPageNum(4)));
    assert_eq!(it.next(), Some(VirtPageNum(5)));
    assert_eq!(it.next(), None);
    assert_eq!(r.pages(), vec![VirtPageNum(3), VirtPageNum(4), VirtPageNum(5)]);
}

#[test]
fn page_table_entry_fields() {
    let flags = PTEFlags::V().union(PTEFlags::R()).union(PTEFlags::W());
    let pte = PageTableEntry::new(PhysPageNum(0x80200), flags);
    assert_eq!(pte.bits, (0x80200 << 10) | 0b111);
    assert_eq!(pte.ppn(), PhysPageNum(0x80200));
    assert!(pte.is_valid() && pte.readable() && pte.writable());
    assert!(!pte.executable() && !pte.is_user_accessible());
    assert!(!PageTableEntry::empty().is_valid());
}

#[test]
fn satp_token_round_trip() {
    let token = token_of(PhysPageNum(0x8_0400));
    assert_eq!(token, (8u64 << 60) | 0x8_0400);
    assert_eq!(root_ppn_of_token(token), PhysPageNum(0x8_0400));
}

#[test]
fn frame_allocator_hands_out_and_recycles() {
    let mut fa = StackFrameAllocator::new();
    fa.init(PhysPageNum(10), PhysPageNum(12));
    assert_eq!(fa.allocate(), Some(PhysPageNum(10)));
    assert_eq!(fa.allocate(), Some(PhysPageNum(11)));
    assert_eq!(fa.allocate(), None);
    fa.dealloc(PhysPageNum(10));
    assert_eq!(fa.allocate(), Some(PhysPageNum(10)));
}

#[test]
fn prot_flags_parse() {
    assert_eq!(parse_prot_flags(0b011).unwrap().bits(), 0b011);
    assert!(parse_prot_flags(0b1000).is_none());
    assert!(parse_prot_flags(0).unwrap().is_empty());
    let p = MapPermission::from(parse_prot_flags(0b101).unwrap());
    assert_eq!(p.bits(), 16 | 2 | 8);
}

#[test]
fn map_record_add_find_remove() {
    let mut m = MapRecordManager::new();
    m.add(0x1000, 0x2000, MapPermission::R());
    m.add(0x5000, 0x1000, MapPermission::W());
    assert_eq!(m.find_index(0x5000, 0x1000), Some(1));
    assert_eq!(m.find_containing_index(0x1800), Some(0));
    assert_eq!(m.find_containing_index(0x4000), None);
    assert!(m.check_overlap(0x2000, 0x1000));
    assert!(!m.check_overlap(0x3000, 0x1000));
    let r = m.remove_by_range(0x1000, 0x2000).unwrap();
    assert_eq!(r.start, 0x1000);
    assert_eq!(m.find_index(0x1000, 0x2000), None);
}

#[test]
fn mmap_then_munmap() {
    let mut m = MmapAreaManager::new();
    let rw = MapPermission::R().union(MapPermission::W()).union(MapPermission::U());
    assert_eq!(m.mmap(VirtAddr(0x10000), 0x2000, rw), 0);
    assert_eq!(m.count(), 1);
    assert_eq!(m.mmap(VirtAddr(0x11000), 0x1000, rw), -1);
    assert_eq!(m.mmap(VirtAddr(0x12000), 0x1000, rw), 0);
    assert_eq!(m.munmap(VirtAddr(0x10000), 0x1000), -1);
    assert_eq!(m.munmap(VirtAddr(0x10000), 0x2000), 0);
    assert_eq!(m.count(), 1);
    assert_eq!(m.get(0).start_vpn, VirtPageNum(0x12));
    assert_eq!(m.mmap(VirtAddr(0x10000), 0, rw), 0);
    assert_eq!(m.clear().len(), 1);
    assert_eq!(m.count(), 0);
}

#[test]
fn map_area_shrink_and_append() {
    let mut area = MapArea::new(VirtAddr(0x1000), VirtAddr(0x4800), MapType::Framed, MapPermission::R());
    assert_eq!(area.vpn_range().get_start(), VirtPageNum(1));
    assert_eq!(area.vpn_range().get_end(), VirtPageNum(5));
    let gone = area.shrink_to(VirtPageNum(3));
    assert_eq!((gone.get_start(), gone.get_end()), (VirtPageNum(3), VirtPageNum(5)));
    let added = area.append_to(VirtPageNum(7));
    assert_eq!((added.get_start(), added.get_end()), (VirtPageNum(3), VirtPageNum(7)));
    assert_eq!(area.vpn_range().get_end(), VirtPageNum(7));
    assert_eq!(area.pte_flags().bits(), 2);
}

#[test]
fn map_area_copy_data_chunks() {
    let area = MapArea::new(VirtAddr(0x10000), VirtAddr(0x14000), MapType::Framed, MapPermission::R());
    let chunks = area.copy_data(5000);
    assert_eq!(chunks.len(), 2);
    assert_eq!((chunks[0].vpn, chunks[0].start, chunks[0].end), (VirtPageNum(0x10), 0, 4096));
    assert_eq!((chunks[1].vpn, chunks[1].start, chunks[1].end), (VirtPageNum(0x11), 4096, 5000));
    let empty = area.copy_data(0);
    assert_eq!(empty.len(), 1);
    assert_eq!((empty[0].start, empty[0].end), (0, 0));
}

#[test]
fn memory_set_shrink_and_append_by_start() {
    let mut ms = MemorySet::new_bare();
    ms.insert_framed_area(VirtAddr(0x10000), VirtAddr(0x10000), MapPermission::R());
    assert_eq!(ms.area_count(), 1);
    let added = ms.append_to(VirtAddr(0x10000), VirtAddr(0x12001)).unwrap();
    assert_eq!((added.get_start(), added.get_end()), (VirtPageNum(0x10), VirtPageNum(0x13)));
    let gone = ms.shrink_to(VirtAddr(0x10000), VirtAddr(0x11000)).unwrap();
    assert_eq!((gone.get_start(), gone.get_end()), (VirtPageNum(0x11), VirtPageNum(0x13)));
    assert!(ms.append_to(VirtAddr(0x20000), VirtAddr(0x21000)).is_none());
}

#[test]
fn kernel_layout_areas() {
    let layout = KernelLayout {
        stext: 0x8020_0000,
        etext: 0x8020_5000,
        srodata: 0x8020_5000,
        erodata: 0x8020_7000,
        sdata: 0x8020_7000,
        edata: 0x8020_8000,
        sbss_with_stack: 0x8020_8000,
        ebss: 0x8022_0000,
        ekernel: 0x8022_0000,
    };
    let ms = MemorySet::new_kernel(&layout);
    assert_eq!(ms.area_count(), 5);
    let text = ms.area(0);
    assert_eq!(text.vpn_range().get_start(), VirtPageNum(0x80200));
    assert_eq!(text.vpn_range().get_end(), VirtPageNum(0x80205));
    assert_eq!(text.map_type(), MapType::Identical);
    assert_eq!(text.map_perm().bits(), 2 | 8);
    assert_eq!(ms.area(1).map_perm().bits(), 2);
    assert_eq!(ms.area(4).vpn_range().get_end(), VirtPageNum(0x88000));
}

#[test]
fn trampoline_and_kernel_stacks() {
    let (vpn, ppn, flags) = trampoline_mapping(0x8020_1000);
    assert_eq!(vpn, VirtPageNum(0x7ff_ffff));
    assert_eq!(ppn, PhysPageNum(0x80201));
    assert_eq!(flags.bits(), 2 | 8);
    let (b0, t0) = kernel_stack_position(0);
    assert_eq!(t0, u64::MAX - 4096 + 1);
    assert_eq!(b0, t0 - 16384);
    let (_, t1) = kernel_stack_position(1);
    assert!(t1 + 4096 <= b0);
}

fn seg(load: bool, vaddr: u64, mem: u64, off: u64, file: u64, r: bool, w: bool, x: bool) -> ElfSegment {
    ElfSegment {
        load,
        virtual_addr: vaddr,
        mem_size: mem,
        offset: off,
        file_size: file,
        readable: r,
        writable: w,
        executable: x,
    }
}

#[test]
fn elf_layout_from_program_headers() {
    let info = ElfInfo {
        entry_point: 0x10000,
        segments: vec![
            seg(true, 0x10000, 0x1800, 0x1000, 0x1800, true, false, true),
            seg(false, 0, 0, 0, 0, false, false, false),
            seg(true, 0x12000, 0x3000, 0x3000, 0x100, true, true, false),
        ],
    };
    let layout = MemorySet::from_elf_info(&info, 0x4000).unwrap();
    let ms = &layout.memory_set;
    assert_eq!(ms.area_count(), 5);
    assert_eq!(ms.area(0).vpn_range().get_start(), VirtPageNum(0x10));
    assert_eq!(ms.area(0).vpn_range().get_end(), VirtPageNum(0x12));
    assert_eq!(ms.area(0).map_perm().bits(), 16 | 2 | 8);
    assert_eq!(ms.area(1).map_perm().bits(), 16 | 2 | 4);
    assert_eq!(layout.data_ranges, vec![(0x1000, 0x2800), (0x3000, 0x3100)]);
    // stack: a guard page above the last segment (which ends at page 0x15)
    assert_eq!(ms.area(2).vpn_range().get_start(), VirtPageNum(0x16));
    assert_eq!(ms.area(2).vpn_range().get_end(), VirtPageNum(0x18));
    assert_eq!(layout.user_stack_top, 0x18000);
    assert_eq!(ms.area(3).vpn_range().get_start(), VirtPageNum(0x18));
    assert_eq!(ms.area(3).vpn_range().get_end(), VirtPageNum(0x18));
    assert_eq!(ms.area(4).vpn_range().get_start(), VirtPageNum(0x7ff_fffe));
    assert_eq!(ms.area(4).map_perm().bits(), 2 | 4);
    assert_eq!(layout.entry_point, 0x10000);
}

#[test]
fn elf_layout_rejects_segment_outside_file() {
    let info = ElfInfo {
        entry_point: 0,
        segments: vec![seg(true, 0x10000, 0x1000, 0x1000, 0x1000, true, false, false)],
    };
    assert!(MemorySet::from_elf_info(&info, 0x1fff).is_none());
}

fn elf64_image(vaddr: u64, entry: u64, payload: &[u8]) -> Vec<u8> {
    let mut v = vec![0u8; 64 + 56];
    v[0..4].copy_from_slice(&[0x7f, b'E', b'L', b'F']);
    v[4] = 2; // 64-bit
    v[5] = 1; // little endian
    v[6] = 1;
    v[16..18].copy_from_slice(&2u16.to_le_bytes());
    v[18..20].copy_from_slice(&243u16.to_le_bytes());
    v[20..24].copy_from_slice(&1u32.to_le_bytes());
    v[24..32].copy_from_slice(&entry.to_le_bytes());
    v[32..40].copy_from_slice(&64u64.to_le_bytes());
    v[52..54].copy_from_slice(&64u16.to_le_bytes());
    v[54..56].copy_from_slice(&56u16.to_le_bytes());
    v[56..58].copy_from_slice(&1u16.to_le_bytes());
    let ph = 64;
    v[ph..ph + 4].copy_from_slice(&1u32.to_le_bytes()); // LOAD
    v[ph + 4..ph + 8].copy_from_slice(&(4u32 | 1).to_le_bytes()); // R X
    v[ph + 8..ph + 16].copy_from_slice(&120u64.to_le_bytes());
    v[ph + 16..ph + 24].copy_from_slice(&vaddr.to_le_bytes());
    v[ph + 24..ph + 32].copy_from_slice(&vaddr.to_le_bytes());
    v[ph + 32..ph + 40].copy_from_slice(&(payload.len() as u64).to_le_bytes());
    v[ph + 40..ph + 48].copy_from_slice(&(payload.len() as u64).to_le_bytes());
    v[ph + 48..ph + 56].copy_from_slice(&4096u64.to_le_bytes());
    v.extend_from_slice(payload);
    v
}

#[test]
fn elf_read_program_headers() {
    let image = elf64_image(0x10000, 0x10004, &[1, 2, 3, 4, 5, 6, 7, 8]);
    let info = read_elf(&image).unwrap();
    assert_eq!(info.entry_point, 0x10004);
    assert_eq!(info.segments.len(), 1);
    let s = info.segments[0];
    assert!(s.load && s.readable && s.executable && !s.writable);
    assert_eq!((s.virtual_addr, s.mem_size, s.offset, s.file_size), (0x10000, 8, 120, 8));
    let (_, layout) = MemorySet::from_elf(&image).unwrap();
    assert_eq!(layout.data_ranges, vec![(120, 128)]);
    assert_eq!(layout.user_stack_top, 0x11000 + 4096 + 8192);
}

#[test]
fn elf_rejects_bad_magic() {
    let mut image = elf64_image(0x10000, 0x10000, &[0; 8]);
    image[1] = b'X';
    assert!(read_elf(&image).is_none());
    assert!(MemorySet::from_elf(&image).is_none());
    assert!(read_elf(&[0u8; 4]).is_none());
}

#[test]
fn format_flags_text() {
    let f = PTEFlags::V().union(PTEFlags::R()).union(PTEFlags::X()).union(PTEFlags::U());
    assert_eq!(format_flags(f), "R | X | U");
    assert_eq!(format_flags(PTEFlags::W()), "W");
    assert_eq!(format_flags(PTEFlags::V()), "");
}

fn identity(vpn: u64) -> Option<PageTableEntry> {
    Some(PageTableEntry::new(PhysPageNum(vpn), PTEFlags::V().union(PTEFlags::R())))
}

#[test]
fn mappings_printout_groups_runs() {
    let mut entries = Vec::new();
    for i in 0..12u64 {
        entries.push(identity(0x100 + i));
    }
    entries.push(None);
    entries.push(Some(PageTableEntry::new(PhysPageNum(0x999), PTEFlags::V())));
    entries.push(identity(0x10e));
    entries.push(Some(PageTableEntry::new(PhysPageNum(0x5), PTEFlags::R())));
    let report = print_mappings_range(VirtPageNum(0x100), &entries, true);
    assert_eq!(report.lines.len(), 2);
    match report.lines[0] {
        MappingLine::Run { first, last, count } => {
            assert_eq!(first.vpn, VirtPageNum(0x100));
            assert_eq!(last.vpn, VirtPageNum(0x10b));
            assert_eq!(count, 12);
        }
        _ => panic!("expected a run"),
    }
    match report.lines[1] {
        MappingLine::Single(m) => {
            assert_eq!(m.vpn, VirtPageNum(0x10e));
            assert_eq!(m.ppn, PhysPageNum(0x10e));
        }
        _ => panic!("expected a single line"),
    }
    assert_eq!(report.buffered.len(), 1);
    assert_eq!(report.buffered[0].ppn, PhysPageNum(0x999));
    let plain = print_mappings_range(VirtPageNum(0x100), &entries, false);
    assert!(plain.lines.is_empty());
    assert_eq!(plain.buffered.len(), 14);
}

#[test]
fn user_buffer_pieces() {
    let pieces = translated_byte_buffer(0x1ff0, 0x20);
    assert_eq!(pieces.len(), 2);
    assert_eq!((pieces[0].vpn, pieces[0].start_offset, pieces[0].end_offset), (VirtPageNum(1), 0xff0, 0x1000));
    assert_eq!((pieces[1].vpn, pieces[1].start_offset, pieces[1].end_offset), (VirtPageNum(2), 0, 0x10));
    assert!(translated_byte_buffer(0x5000, 0).is_empty());
    let whole = translated_byte_buffer(0x3000, 0x2000);
    assert_eq!(whole.len(), 2);
    assert_eq!((whole[1].start_offset, whole[1].end_offset), (0, 0x1000));
}

#[test]
fn user_byte_access_checks_permissions() {
    let urw = PTEFlags::V().union(PTEFlags::R()).union(PTEFlags::W()).union(PTEFlags::U());
    let ur = PTEFlags::V().union(PTEFlags::R()).union(PTEFlags::U());
    let kernel_rw = PTEFlags::V().union(PTEFlags::R()).union(PTEFlags::W());
    let e = PageTableEntry::new(PhysPageNum(0x80400), urw);
    assert_eq!(
        read_user_memory(Some(e), 0x1234),
        UserAccess::Read { ppn: PhysPageNum(0x80400), offset: 0x234 }
    );
    assert_eq!(
        write_user_memory(Some(e), 0x1234, 0x1ff),
        UserAccess::Write { ppn: PhysPageNum(0x80400), offset: 0x234, byte: 0xff }
    );
    let ro = PageTableEntry::new(PhysPageNum(0x80400), ur);
    assert_eq!(write_user_memory(Some(ro), 0x1234, 1), UserAccess::Denied);
    let k = PageTableEntry::new(PhysPageNum(0x80400), kernel_rw);
    assert_eq!(do_user_memory(Some(k), 0x1234, None), UserAccess::Denied);
    assert_eq!(do_user_memory(None, 0x1234, None), UserAccess::Denied);
    assert_eq!(UserAccess::Denied.ret(0), -1);
    assert_eq!(UserAccess::Read { ppn: PhysPageNum(1), offset: 0 }.ret(200), 200);
}


#[test]
fn page_walk_follows_valid_entries() {
    let pt = PageTable::new(PhysPageNum(0x80000));
    assert_eq!(pt.token(), (8u64 << 60) | 0x80000);
    let vpn = VirtPageNum((1 << 18) * 2 + (1 << 9) * 3 + 4);
    let mut walk = pt.walk(vpn);
    assert_eq!(walk.position(), WalkPosition { ppn: PhysPageNum(0x80000), level: 0, index: 2 });
    assert!(!walk.at_leaf());
    assert!(walk.descend(PageTableEntry::new(PhysPageNum(0x80001), PTEFlags::V())));
    assert_eq!(walk.position(), WalkPosition { ppn: PhysPageNum(0x80001), level: 1, index: 3 });
    assert!(!walk.descend(PageTableEntry::empty()));
    assert_eq!(walk.position().level, 1);
    assert!(walk.descend(PageTableEntry::new(PhysPageNum(0x80002), PTEFlags::V())));
    assert!(walk.at_leaf());
    assert_eq!(walk.position(), WalkPosition { ppn: PhysPageNum(0x80002), level: 2, index: 4 });
}

#[test]
fn page_table_from_token_and_map_entry() {
    let pt = PageTable::from_token((8u64 << 60) | 0x8_1234);
    assert_eq!(pt.root_ppn(), PhysPageNum(0x8_1234));
    let e = map_entry(PhysPageNum(0x9000), PTEFlags::R().union(PTEFlags::U()));
    assert!(e.is_valid() && e.readable() && e.is_user_accessible() && !e.writable());
    assert_eq!(e.ppn(), PhysPageNum(0x9000));
    let mut owned = PageTable::new(PhysPageNum(1));
    owned.add_frame(PhysPageNum(2));
    assert_eq!(owned.root_ppn(), PhysPageNum(1));
}

#[test]
fn va_round_trip_through_u64() {
    for a in [0u64, 0x1000, 0x3f_ffff_ffff, 0x40_0000_0000, 0x7f_ffff_f000] {
        assert_eq!(VirtAddr::from(u64::from(VirtAddr(a))), VirtAddr(a));
    }
}

#[test]
fn printout_counts_every_mapping() {
    let mut entries = Vec::new();
    for i in 0..25u64 {
        if i % 7 == 3 {
            entries.push(Some(PageTableEntry::new(PhysPageNum(0x9000 + i), PTEFlags::V())));
        } else {
            entries.push(identity(0x200 + i));
        }
    }
    let report = print_mappings_range(VirtPageNum(0x200), &entries, true);
    let mut counted = report.buffered.len();
    for line in report.lines.iter() {
        counted += match line {
            MappingLine::Run { count, .. } => *count,
            MappingLine::Single(_) => 1,
        };
    }
    assert_eq!(counted, 25);
}

#[test]
fn user_buffer_pieces_cover_the_buffer() {
    let pieces = translated_byte_buffer(0x1234, 0x3456);
    let mut total = 0;
    for (i, p) in pieces.iter().enumerate() {
        assert!(p.start_offset < p.end_offset && p.end_offset <= 4096);
        if i > 0 {
            assert_eq!(p.start_offset, 0);
            assert_eq!(p.vpn.0, pieces[i - 1].vpn.0 + 1);
        }
        total += p.end_offset - p.start_offset;
    }
    assert_eq!(total, 0x3456);
}

#[test]
fn prot_flags_refuse_high_bits() {
    assert!(parse_prot_flags(0x100).is_none());
    assert!(parse_prot_flags(0x101).is_none());
    assert_eq!(parse_prot_flags(7).unwrap().bits(), 7);
}

#[test]
fn map_record_empty_record_overlaps_nothing() {
    let mut m = MapRecordManager::new();
    m.add(0x5000, 0, MapPermission::R());
    assert!(!m.check_overlap(0x4000, 0x2000));
    m.add(0x5000, 0x10, MapPermission::R());
    assert!(m.check_overlap(0x4000, 0x2000));
    assert!(!m.check_overlap(0x5010, 0x10));
}

#[test]
fn ceil_of_zero_is_zero() {
    assert_eq!(VirtAddr(0).ceil(), VirtPageNum(0));
    assert_eq!(PhysAddr(0).ceil(), PhysPageNum(0));
    assert_eq!(VirtAddr(1).ceil(), VirtPageNum(1));
}

#[test]
fn kernel_layout_check() {
    let good = KernelLayout {
        stext: 0x8020_0000,
        etext: 0x8021_0000,
        srodata: 0x8021_0000,
        erodata: 0x8022_0000,
        sdata: 0x8022_0000,
        edata: 0x8023_0000,
        sbss_with_stack: 0x8023_0000,
        ebss: 0x8024_0000,
        ekernel: 0x8024_0000,
    };
    assert!(kernel_layout_valid(&good));
    let bad = KernelLayout { etext: 0x8000_0000, ..good };
    assert!(!kernel_layout_valid(&bad));
}

#[test]
fn elf_header_check() {
    let image = elf64_image(0x10000, 0x10004, &[1, 2, 3, 4]);
    assert!(elf_header_ok(&image));
    assert!(!elf_header_ok(&image[..40]));
    let mut bad = image.clone();
    bad[4] = 3;
    assert!(!elf_header_ok(&bad));
}

#[test]
fn elf_fields_are_read_from_their_offsets() {
    // Distinct file offset and address, so a swap of the two would show.
    let image = elf64_image(0x20000, 0x2_0010, &[9; 16]);
    let info = read_elf(&image).unwrap();
    assert_eq!(info.entry_point, 0x2_0010);
    let s = info.segments[0];
    assert_eq!(s.offset, 120);
    assert_eq!(s.virtual_addr, 0x20000);
    assert_eq!(s.file_size, 16);
    let (info2, layout) = MemorySet::from_elf(&image).unwrap();
    assert_eq!(info2.entry_point, 0x2_0010);
    assert_eq!(layout.entry_point, 0x2_0010);
}

#[test]
fn elf_rejects_table_outside_file() {
    let mut image = elf64_image(0x10000, 0x10000, &[0; 8]);
    image[32..40].copy_from_slice(&0x1000u64.to_le_bytes());
    assert!(read_elf(&image).is_none());
    assert!(MemorySet::from_elf(&image).is_none());
}

#[test]
fn elf_rejects_invalid_segment_type() {
    let mut image = elf64_image(0x10000, 0x10000, &[0; 8]);
    image[64..68].copy_from_slice(&0x5000_0000u32.to_le_bytes());
    assert!(read_elf(&image).is_none());
}

#[test]
fn elf_accepts_other_segment_types() {
    let mut image = elf64_image(0x10000, 0x10000, &[0; 8]);
    image[64..68].copy_from_slice(&4u32.to_le_bytes()); // NOTE
    let info = read_elf(&image).unwrap();
    assert!(!info.segments[0].load);
}

#[test]
fn elf_reads_unaligned_images() {
    let image = elf64_image(0x20000, 0x2_0010, &[7; 16]);
    for shift in 1..8 {
        let mut shifted = vec![0u8; shift];
        shifted.extend_from_slice(&image);
        let info = read_elf(&shifted[shift..]).unwrap();
        assert_eq!(info.entry_point, 0x2_0010);
        assert_eq!(info.segments[0].virtual_addr, 0x20000);
        assert!(MemorySet::from_elf(&shifted[shift..]).is_some());
    }
}
