use open_kernel::boot_info::{
    FrameBufferInfo, MemoryMap, MemoryRegion, MemoryRegionRange, MemoryRegionType, PixelFormat,
    MAX_REGIONS,
};
use open_kernel::loader::{
    load_kernel_image, memory_map_from_descriptors, plan_kernel_load, region_from_descriptor,
    LoadError, SegmentCopy, SegmentInfo, SegmentKind, UefiMemoryDescriptor,
};
use open_kernel::memory::BootInfoFrameAllocator;

fn region(start: u64, end: u64, t: MemoryRegionType) -> MemoryRegion {
    MemoryRegion { range: MemoryRegionRange { start_addr: start, end_addr: end }, region_type: t }
}

#[test]
fn memory_map_keeps_order_and_caps() {
    let mut m = MemoryMap::new();
    assert!(m.iter().is_empty());
    m.add_region(region(0, 10, MemoryRegionType::Usable));
    m.add_region(region(10, 20, MemoryRegionType::Reserved));
    assert_eq!(m.iter().len(), 2);
    assert_eq!(m.iter()[1].range.start_addr(), 10);
    assert_eq!(m.iter()[1].range.end_addr(), 20);
    for i in 0..MAX_REGIONS {
        m.add_region(region(i as u64, i as u64 + 1, MemoryRegionType::InUse));
    }
    assert_eq!(m.iter().len(), MAX_REGIONS);
    assert_eq!(m.iter()[0], region(0, 10, MemoryRegionType::Usable));
    let e = MemoryRegion::empty();
    assert_eq!(e, region(0, 0, MemoryRegionType::Usable));
}

#[test]
fn frame_allocator_walks_usable_frames() {
    let mut m = MemoryMap::new();
    m.add_region(region(0x1000, 0x3000, MemoryRegionType::Usable));
    m.add_region(region(0x3000, 0x9000, MemoryRegionType::Reserved));
    m.add_region(region(0x10100, 0x12001, MemoryRegionType::Usable));
    m.add_region(region(0x20000, 0x20000, MemoryRegionType::Usable));
    let map: &'static MemoryMap = Box::leak(Box::new(m));
    let mut a = BootInfoFrameAllocator::init(map);
    let got: Vec<Option<u64>> = (0..7).map(|_| a.allocate_frame()).collect();
    assert_eq!(
        got,
        vec![Some(0x1000), Some(0x2000), Some(0x10000), Some(0x11000), None, None, None]
    );
}

#[test]
fn descriptors_become_regions() {
    let d = UefiMemoryDescriptor { conventional: true, phys_start: 0x1000, page_count: 3 };
    assert_eq!(region_from_descriptor(d), region(0x1000, 0x4000, MemoryRegionType::Usable));
    let r = UefiMemoryDescriptor { conventional: false, phys_start: 0, page_count: 1 };
    assert_eq!(region_from_descriptor(r), region(0, 0x1000, MemoryRegionType::Reserved));
    let many: Vec<UefiMemoryDescriptor> = (0..300)
        .map(|i| UefiMemoryDescriptor { conventional: i % 2 == 0, phys_start: i * 0x1000, page_count: 1 })
        .collect();
    let m = memory_map_from_descriptors(&many);
    assert_eq!(m.iter().len(), MAX_REGIONS);
    assert_eq!(m.iter()[255], region(255 * 0x1000, 256 * 0x1000, MemoryRegionType::Reserved));
}

#[test]
fn framebuffer_info_empty() {
    let f = FrameBufferInfo::empty();
    assert_eq!(f.address, 0);
    assert_eq!(f.pixel_format, PixelFormat::Rgb);
}

fn seg(kind: SegmentKind, paddr: u64, filesz: u64, memsz: u64, offset: u64) -> SegmentInfo {
    SegmentInfo { kind, physical_addr: paddr, file_size: filesz, mem_size: memsz, offset }
}

#[test]
fn plan_spans_loadable_segments() {
    let hs = [
        seg(SegmentKind::Other, 0, 100, 100, 0),
        seg(SegmentKind::Load, 0x10_1234, 0x200, 0x800, 0x1000),
        seg(SegmentKind::Load, 0x10_5000, 0x100, 0x100, 0x2000),
        seg(SegmentKind::Load, 0x20_0000, 0, 0, 0),
    ];
    let p = plan_kernel_load(&hs, 0x3000, 0x10_1234).unwrap();
    assert_eq!(p.alloc_start, 0x10_1000);
    assert_eq!(p.total_pages, (0x20_0000 - 0x10_1000) / 0x1000);
    assert_eq!(p.entry_point, 0x10_1234);
    assert_eq!(
        p.copies,
        vec![
            SegmentCopy { dest: 0x10_1234, src_offset: 0x1000, len: 0x200 },
            SegmentCopy { dest: 0x10_5000, src_offset: 0x2000, len: 0x100 },
        ]
    );
}

#[test]
fn plan_rounds_end_up() {
    let hs = [seg(SegmentKind::Load, 0x1000, 1, 1, 0)];
    let p = plan_kernel_load(&hs, 1, 0).unwrap();
    assert_eq!((p.alloc_start, p.total_pages), (0x1000, 1));
}

#[test]
fn plan_errors() {
    assert_eq!(plan_kernel_load(&[], 0, 0).err(), Some(LoadError::NoLoadSegments));
    let none_loaded = [seg(SegmentKind::Other, 0, 0, 0x100, 0)];
    assert_eq!(plan_kernel_load(&none_loaded, 0, 0).err(), Some(LoadError::NoLoadSegments));
    let empty_load = [seg(SegmentKind::Load, 0x1000, 0, 0, 0)];
    assert_eq!(plan_kernel_load(&empty_load, 0, 0).err(), Some(LoadError::NoLoadSegments));
    let bad = [seg(SegmentKind::Load, 0x1000, 0, 0x10, 0), seg(SegmentKind::Invalid, 0, 0, 0, 0)];
    assert_eq!(plan_kernel_load(&bad, 0, 0).err(), Some(LoadError::BadSegmentType));
    let wraps = [seg(SegmentKind::Load, u64::MAX - 4, 0, 10, 0)];
    assert_eq!(plan_kernel_load(&wraps, 0, 0).err(), Some(LoadError::AddressOverflow));
    let near_top = [seg(SegmentKind::Load, u64::MAX - 20, 0, 10, 0)];
    assert_eq!(plan_kernel_load(&near_top, 0, 0).err(), Some(LoadError::AddressOverflow));
    let outside = [seg(SegmentKind::Load, 0x1000, 0x100, 0x100, 0xFF0)];
    assert_eq!(plan_kernel_load(&outside, 0x1000, 0).err(), Some(LoadError::SegmentOutOfFile));
}

fn push_u16(v: &mut Vec<u8>, x: u16) {
    v.extend_from_slice(&x.to_le_bytes());
}
fn push_u32(v: &mut Vec<u8>, x: u32) {
    v.extend_from_slice(&x.to_le_bytes());
}
fn push_u64(v: &mut Vec<u8>, x: u64) {
    v.extend_from_slice(&x.to_le_bytes());
}

/// An ELF64 file with the given program headers (type, paddr, offset,
/// filesz, memsz) right after the 64-byte header.
fn elf64(entry: u64, phs: &[(u32, u64, u64, u64, u64)]) -> Vec<u8> {
    let mut v = vec![0x7f, b'E', b'L', b'F', 2, 1, 1, 0, 0, 0, 0, 0, 0, 0, 0, 0];
    push_u16(&mut v, 2);
    push_u16(&mut v, 0x3e);
    push_u32(&mut v, 1);
    push_u64(&mut v, entry);
    push_u64(&mut v, 64);
    push_u64(&mut v, 0);
    push_u32(&mut v, 0);
    push_u16(&mut v, 64);
    push_u16(&mut v, 56);
    push_u16(&mut v, phs.len() as u16);
    push_u16(&mut v, 0);
    push_u16(&mut v, 0);
    push_u16(&mut v, 0);
    for &(ty, paddr, offset, filesz, memsz) in phs {
        push_u32(&mut v, ty);
        push_u32(&mut v, 5);
        push_u64(&mut v, offset);
        push_u64(&mut v, paddr);
        push_u64(&mut v, paddr);
        push_u64(&mut v, filesz);
        push_u64(&mut v, memsz);
        push_u64(&mut v, 0x1000);
    }
    v.resize(0x400, 0xAA);
    v
}

#[test]
fn load_kernel_image_reads_elf_headers() {
    let bytes = elf64(0x20_0010, &[(1, 0x20_0000, 0x200, 0x100, 0x1800), (4, 0, 0, 0, 0)]);
    let p = load_kernel_image(&bytes).unwrap();
    assert_eq!(p.entry_point, 0x20_0010);
    assert_eq!(p.alloc_start, 0x20_0000);
    assert_eq!(p.total_pages, 2);
    assert_eq!(p.copies, vec![SegmentCopy { dest: 0x20_0000, src_offset: 0x200, len: 0x100 }]);
}

#[test]
fn load_kernel_image_errors() {
    assert_eq!(load_kernel_image(b"not an elf file at all, really not").err(), Some(LoadError::BadElf));
    assert_eq!(load_kernel_image(&[]).err(), Some(LoadError::BadElf));
    let no_load = elf64(0, &[(4, 0, 0, 0, 0)]);
    assert_eq!(load_kernel_image(&no_load).err(), Some(LoadError::NoLoadSegments));
    let bad_type = elf64(0, &[(1, 0x1000, 0, 0, 0x10), (8, 0, 0, 0, 0)]);
    assert_eq!(load_kernel_image(&bad_type).err(), Some(LoadError::BadSegmentType));
    let past_end = elf64(0, &[(1, 0x1000, 0x3F0, 0x100, 0x100)]);
    assert_eq!(load_kernel_image(&past_end).err(), Some(LoadError::SegmentOutOfFile));
}

#[test]
fn load_kernel_image_rejects_unreadable_program_headers() {
    let mut truncated = elf64(0x1000, &[(1, 0x1000, 0, 0x10, 0x10)]);
    truncated.truncate(64 + 30);
    assert_eq!(load_kernel_image(&truncated).err(), Some(LoadError::BadProgramHeader));
    let mut short_entries = elf64(0x1000, &[(1, 0x1000, 0, 0x10, 0x10)]);
    short_entries[54..56].copy_from_slice(&16u16.to_le_bytes());
    assert_eq!(load_kernel_image(&short_entries).err(), Some(LoadError::BadProgramHeader));
    let mut far_table = elf64(0x1000, &[(1, 0x1000, 0, 0x10, 0x10)]);
    far_table[32..40].copy_from_slice(&u64::MAX.to_le_bytes());
    assert_eq!(load_kernel_image(&far_table).err(), Some(LoadError::BadProgramHeader));
    let mut no_table = elf64(0x1000, &[(1, 0x1000, 0, 0x10, 0x10)]);
    no_table[32..40].copy_from_slice(&0u64.to_le_bytes());
    assert_eq!(load_kernel_image(&no_table).err(), Some(LoadError::NoLoadSegments));
}

/// An ELF32 file with one loadable program header (paddr, offset, filesz,
/// memsz) right after the 52-byte header.
fn elf32(entry: u32, paddr: u32, offset: u32, filesz: u32, memsz: u32) -> Vec<u8> {
    let mut v = vec![0x7f, b'E', b'L', b'F', 1, 1, 1, 0, 0, 0, 0, 0, 0, 0, 0, 0];
    push_u16(&mut v, 2);
    push_u16(&mut v, 3);
    push_u32(&mut v, 1);
    push_u32(&mut v, entry);
    push_u32(&mut v, 52);
    push_u32(&mut v, 0);
    push_u32(&mut v, 0);
    push_u16(&mut v, 52);
    push_u16(&mut v, 32);
    push_u16(&mut v, 1);
    push_u16(&mut v, 0);
    push_u16(&mut v, 0);
    push_u16(&mut v, 0);
    for x in [1, offset, paddr, paddr, filesz, memsz, 5, 0x1000] {
        push_u32(&mut v, x);
    }
    v.resize(0x200, 0);
    v
}

#[test]
fn load_kernel_image_reads_32_bit_files() {
    let bytes = elf32(0x10_0004, 0x10_0000, 0x100, 0x80, 0x2000);
    let p = load_kernel_image(&bytes).unwrap();
    assert_eq!(p.entry_point, 0x10_0004);
    assert_eq!(p.alloc_start, 0x10_0000);
    assert_eq!(p.total_pages, 2);
    assert_eq!(p.copies, vec![SegmentCopy { dest: 0x10_0000, src_offset: 0x100, len: 0x80 }]);
}

#[test]
fn load_kernel_image_rejects_misaligned_program_headers() {
    let mut odd_offset = elf64(0x1000, &[(1, 0x1000, 0, 0x10, 0x10)]);
    odd_offset[32..40].copy_from_slice(&68u64.to_le_bytes());
    assert_eq!(load_kernel_image(&odd_offset).err(), Some(LoadError::BadProgramHeader));
    let mut odd_size = elf64(0x1000, &[(1, 0x1000, 0, 0x10, 0x10), (4, 0, 0, 0, 0)]);
    odd_size[54..56].copy_from_slice(&60u16.to_le_bytes());
    assert_eq!(load_kernel_image(&odd_size).err(), Some(LoadError::BadProgramHeader));
    let mut one_wide = elf64(0x1000, &[(1, 0x1000, 0, 0x10, 0x10)]);
    one_wide[54..56].copy_from_slice(&60u16.to_le_bytes());
    assert!(load_kernel_image(&one_wide).is_ok());
    // The same image read from a slice that starts at an odd address.
    let image = elf64(0x1000, &[(1, 0x1000, 0, 0x10, 0x10)]);
    let mut shifted = vec![0u8];
    shifted.extend_from_slice(&image);
    assert_eq!(load_kernel_image(&shifted[1..]).unwrap().entry_point, 0x1000);
}

#[test]
fn frames_above_the_address_limit_are_reported_before_they_are_reached() {
    let mut m = MemoryMap::new();
    m.add_region(region(0x1000, 0x3000, MemoryRegionType::Usable));
    m.add_region(region(0x10_0000_0000_0000 - 0x1000, 0x10_0000_0000_0000 + 0x1000, MemoryRegionType::Usable));
    let map: &'static MemoryMap = Box::leak(Box::new(m));
    let mut a = BootInfoFrameAllocator::init(map);
    assert!(a.next_frame_addressable());
    assert_eq!(a.allocate_frame(), Some(0x1000));
    assert!(a.next_frame_addressable());
    assert_eq!(a.allocate_frame(), Some(0x2000));
    assert!(a.next_frame_addressable());
    assert_eq!(a.allocate_frame(), Some(0x10_0000_0000_0000 - 0x1000));
    assert!(!a.next_frame_addressable());
}

#[test]
fn frames_are_distinct_and_none_stays_none() {
    let mut m = MemoryMap::new();
    m.add_region(region(0x8000, 0xA000, MemoryRegionType::Usable));
    m.add_region(region(0x1000, 0x3000, MemoryRegionType::Usable));
    m.add_region(region(0x2000, 0x9000, MemoryRegionType::Reserved));
    let map: &'static MemoryMap = Box::leak(Box::new(m));
    let mut a = BootInfoFrameAllocator::init(map);
    let got: Vec<Option<u64>> = (0..8).map(|_| a.allocate_frame()).collect();
    let frames: Vec<u64> = got.iter().flatten().copied().collect();
    assert_eq!(frames, vec![0x8000, 0x9000, 0x1000, 0x2000]);
    assert!(got[4..].iter().all(|f| f.is_none()));
}
