use rsos::kernel::{Kernel, K_HH_START, K_LH_HH_OFFSET, K_LH_START};
use rsos::memory::MemoryError;
use rsos::multiboot2::{MbError, MbInfo, TagType};
use rsos::multiboot2::elf_symbols::{ElfSection, ElfSectionFlags};
use rsos::multiboot2::framebuffer_info::{FrameBufferInfoError, FrameBufferType};
use rsos::multiboot2::memory_map::{MemoryMapEntries, MemoryMapEntry};

fn push_u32(v: &mut Vec<u8>, x: u32) {
    v.extend_from_slice(&x.to_le_bytes());
}

fn push_u64(v: &mut Vec<u8>, x: u64) {
    v.extend_from_slice(&x.to_le_bytes());
}

/// A boot information with a basic memory information tag, a framebuffer tag and the end tag.
fn boot_info(fb_type: u8, mask_size: u8) -> Vec<u8> {
    let mut v = Vec::new();
    push_u32(&mut v, 0); // total size, fixed below
    push_u32(&mut v, 0); // reserved
    // basic memory information
    push_u32(&mut v, 4);
    push_u32(&mut v, 16);
    push_u32(&mut v, 639);
    push_u32(&mut v, 130048);
    // framebuffer
    push_u32(&mut v, 8);
    push_u32(&mut v, 38);
    push_u64(&mut v, 0xfd00_0000);
    push_u32(&mut v, 4096); // pitch
    push_u32(&mut v, 1024); // width
    push_u32(&mut v, 768); // height
    v.push(32); // bpp
    v.push(fb_type);
    v.push(0);
    v.push(0); // reserved
    v.extend_from_slice(&[16, mask_size, 8, mask_size, 0, mask_size]);
    while v.len() % 8 != 0 {
        v.push(0);
    }
    // end
    push_u32(&mut v, 0);
    push_u32(&mut v, 8);
    let total = v.len() as u32;
    v[0..4].copy_from_slice(&total.to_le_bytes());
    v
}

#[test]
fn tag_type_values() {
    assert_eq!(TagType::End.value(), 0);
    assert_eq!(TagType::MemInfo.value(), 4);
    assert_eq!(TagType::MemMap.value(), 6);
    assert_eq!(TagType::FrameBuffer.value(), 8);
    assert_eq!(TagType::ElfSymbols.value(), 9);
    assert_eq!(TagType::EfiBootServicesNotTerminated.value(), 18);
}

#[test]
fn boot_info_address_must_be_aligned() {
    let b = boot_info(1, 8);
    assert!(matches!(MbInfo::new(0, &b), Err(MbError::IllegalAddr)));
    assert!(matches!(MbInfo::new(0x1004, &b), Err(MbError::IllegalAddr)));
}

#[test]
fn boot_info_reserved_must_be_zero() {
    let mut b = boot_info(1, 8);
    b[4] = 1;
    assert!(matches!(MbInfo::new(0x1000, &b), Err(MbError::InvalidReserveValue)));
}

#[test]
fn boot_info_header_and_tags() {
    let b = boot_info(1, 8);
    let info = MbInfo::new(0x1000, &b).ok().unwrap();
    assert_eq!(info.header.total_size as usize, b.len());
    assert_eq!(info.header.reserved, 0);
    let m = info.basic_mem_info_tag().unwrap();
    assert_eq!(m.header.tag_type, 4);
    assert_eq!(m.header.size, 16);
    assert_eq!(m.mem_lower, 639);
    assert_eq!(m.mem_upper, 130048);
    assert!(info.mem_map_tag().is_none());
    assert!(info.has_tag(TagType::FrameBuffer));
    assert!(!info.has_tag(TagType::EfiBootServicesNotTerminated));
}

#[test]
fn framebuffer_tag_is_read() {
    let b = boot_info(1, 8);
    let info = MbInfo::new(0x1000, &b).ok().unwrap();
    let fb = info.framebuffer_tag().unwrap();
    assert_eq!(fb.header.tag_type, 8);
    assert_eq!(fb.phy_addr, 0xfd00_0000);
    assert_eq!(fb.pitch, 4096);
    assert_eq!(fb.width, 1024);
    assert_eq!(fb.height, 768);
    assert_eq!(fb.bpp, 32);
    assert_eq!(fb.get_type(), Ok(FrameBufferType::DirectRGBColor));
    let c = fb.get_color_info();
    assert_eq!(c.red_field_position, 16);
    assert_eq!(c.green_field_position, 8);
    assert_eq!(c.blue_field_position, 0);
    assert_eq!(c.red_mask_size, 8);
}

#[test]
fn framebuffer_type_bytes() {
    let info = MbInfo::new(0x1000, &boot_info(0, 8)).ok().unwrap();
    assert_eq!(info.framebuffer_tag().unwrap().get_type(), Ok(FrameBufferType::Indexed));
    let info = MbInfo::new(0x1000, &boot_info(2, 8)).ok().unwrap();
    assert_eq!(info.framebuffer_tag().unwrap().get_type(), Ok(FrameBufferType::EGAText));
    let info = MbInfo::new(0x1000, &boot_info(9, 8)).ok().unwrap();
    assert_eq!(info.framebuffer_tag().unwrap().get_type(), Err(FrameBufferInfoError::UnknownFrameBufferType));
}

#[test]
fn missing_tags_are_none() {
    let mut v = Vec::new();
    push_u32(&mut v, 16);
    push_u32(&mut v, 0);
    push_u32(&mut v, 0);
    push_u32(&mut v, 8);
    let info = MbInfo::new(0x1000, &v).ok().unwrap();
    assert!(info.basic_mem_info_tag().is_none());
    assert!(info.framebuffer_tag().is_none());
}

fn sections() -> Vec<ElfSection> {
    let alloc = ElfSectionFlags::from_bits_retain(ElfSectionFlags::ELF_SECTION_ALLOCATED);
    let none = ElfSectionFlags::from_bits_retain(0);
    vec![
        ElfSection::new(0x10_0000, 0x2345, alloc),
        ElfSection::new(0x5000, 0x100, none),
        ElfSection::new(0x20_0000, 0x1000, alloc),
    ]
}

fn elf_tag_info(entsize: u32) -> Vec<u8> {
    let mut v = Vec::new();
    push_u32(&mut v, 0);
    push_u32(&mut v, 0);
    push_u32(&mut v, 9);
    push_u32(&mut v, 20 + 2 * 64);
    push_u32(&mut v, 2); // number of sections
    push_u32(&mut v, entsize);
    push_u32(&mut v, 1); // names section
    for (flags, addr, size) in [(0x6u64, 0x10_0000u64, 0x2345u64), (0x3, 0x20_0000, 0x1000)] {
        push_u32(&mut v, 0); // sh_name
        push_u32(&mut v, 1); // sh_type
        push_u64(&mut v, flags);
        push_u64(&mut v, addr);
        push_u64(&mut v, addr); // sh_offset
        push_u64(&mut v, size);
        v.extend_from_slice(&[0u8; 24]);
    }
    while v.len() % 8 != 0 {
        v.push(0);
    }
    push_u32(&mut v, 0);
    push_u32(&mut v, 8);
    let total = v.len() as u32;
    v[0..4].copy_from_slice(&total.to_le_bytes());
    v
}

fn mem_map_info(entry_size: u32) -> Vec<u8> {
    let mut v = Vec::new();
    push_u32(&mut v, 0);
    push_u32(&mut v, 0);
    push_u32(&mut v, 6);
    push_u32(&mut v, 16 + 2 * entry_size);
    push_u32(&mut v, entry_size);
    push_u32(&mut v, 0);
    for (base, len, kind) in [(0u64, 0x9_fc00u64, 1u32), (0x10_0000, 0x7ee_0000, 2)] {
        push_u64(&mut v, base);
        push_u64(&mut v, len);
        push_u32(&mut v, kind);
        push_u32(&mut v, 0);
        for _ in 24..entry_size {
            v.push(0);
        }
    }
    while v.len() % 8 != 0 {
        v.push(0);
    }
    push_u32(&mut v, 0);
    push_u32(&mut v, 8);
    let total = v.len() as u32;
    v[0..4].copy_from_slice(&total.to_le_bytes());
    v
}

#[test]
fn memory_map_entries_are_read() {
    let info = MbInfo::new(0x1000, &mem_map_info(24)).ok().unwrap();
    let m = info.memory_map_entries().unwrap();
    assert_eq!(m.0.len(), 2);
    assert_eq!((m.0[0].base_addr, m.0[0].length, m.0[0].entry_type), (0, 0x9_fc00, 1));
    assert_eq!((m.0[1].base_addr, m.0[1].length, m.0[1].entry_type), (0x10_0000, 0x7ee_0000, 2));
    // larger entries are stepped over by their size
    let wide = MbInfo::new(0x1000, &mem_map_info(32)).ok().unwrap();
    assert_eq!(wide.memory_map_entries().unwrap().0[1].base_addr, 0x10_0000);
    let short = MbInfo::new(0x1000, &mem_map_info(16)).ok().unwrap();
    assert!(short.memory_map_entries().is_none());
    assert!(MbInfo::new(0x1000, &boot_info(1, 8)).ok().unwrap().memory_map_entries().is_none());
}

#[test]
fn elf_sections_are_read() {
    let info = MbInfo::new(0x1000, &elf_tag_info(64)).ok().unwrap();
    let secs = info.elf_sections().unwrap();
    assert_eq!(secs.len(), 2);
    assert_eq!(secs[0].load_addr(), 0x10_0000);
    assert_eq!(secs[0].size(), 0x2345);
    assert_eq!(secs[0].flags().bits(), 0x6);
    assert_eq!(secs[1].load_addr(), 0x20_0000);
    assert_eq!(secs[1].flags().bits(), 0x3);
    // headers too short for the fields that are read
    let short = MbInfo::new(0x1000, &elf_tag_info(32)).ok().unwrap();
    assert!(short.elf_sections().is_none());
    let none = MbInfo::new(0x1000, &boot_info(1, 8)).ok().unwrap();
    assert!(none.elf_sections().is_none());
}

#[test]
fn elf_section_fields() {
    let s = ElfSection::new(0x1000, 0x20, ElfSectionFlags::from_bits_retain(0x3));
    assert_eq!(s.load_addr(), 0x1000);
    assert_eq!(s.size(), 0x20);
    assert_eq!(s.flags().bits(), 3);
    assert!(s.flags().contains(ElfSectionFlags::ELF_SECTION_WRITABLE));
    assert!(!s.flags().contains(ElfSectionFlags::ELF_SECTION_EXECUTABLE));
}

#[test]
fn kernel_bounds_and_prohibited_ranges() {
    let region = vec![7u8; 0x1000];
    let mut k = Kernel::new();
    k.init(&sections(), 0x30_0010, 0x100, &region);
    assert_eq!(k.k_start(), 0x10_0000);
    assert_eq!(k.k_end(), 0x20_0fff);
    assert_eq!(k.mb_start(), 0x30_0000);
    assert_eq!(k.mb_end(), 0x30_0fff);
    let r = k.prohibited_memory_ranges();
    assert_eq!((r[0].start_addr(), r[0].end_addr()), (0, 0xfff));
    assert_eq!((r[1].start_addr(), r[1].end_addr()), (0x10_0000, 0x20_0fff));
    assert_eq!((r[2].start_addr(), r[2].end_addr()), (0x30_0000, 0x30_0fff));
}

#[test]
fn kernel_constants() {
    assert_eq!(Kernel::k_lh_start(), K_LH_START);
    assert_eq!(Kernel::k_hh_start(), K_HH_START);
    assert_eq!(Kernel::k_lh_hh_offset(), K_LH_HH_OFFSET);
    assert_eq!(Kernel::k_hh_start() - Kernel::k_lh_start(), Kernel::k_lh_hh_offset());
    assert_eq!(Kernel::originally_identity_mapped(), 0x4000_0000);
    assert_eq!(Kernel::originally_higher_half_mapped(), 0x100_0000);
    assert_eq!(Kernel::prohibited_mem_ranges_len(), 3);
}

#[test]
fn multiboot2_memory_is_intact_until_changed() {
    let mut region = vec![0u8; 0x1000];
    for (i, b) in region.iter_mut().enumerate() {
        *b = i as u8;
    }
    let mut k = Kernel::new();
    k.init(&sections(), 0x30_0010, 0x100, &region);
    assert!(k.mb2_intact(&region));
    region[17] ^= 0xff;
    assert!(!k.mb2_intact(&region));
}

fn map_with(kind: u32) -> MemoryMapEntries {
    MemoryMapEntries(vec![
        MemoryMapEntry { base_addr: 0, length: 0x9_f000, entry_type: 1, reserved: 0 },
        MemoryMapEntry { base_addr: 0x10_0000, length: 0x100_0000, entry_type: kind, reserved: 0 },
    ])
}

#[test]
fn initial_checks_outcomes() {
    let region = vec![0u8; 0x1000];
    let mut k = Kernel::new();
    k.init(&sections(), 0x30_0010, 0x100, &region);
    assert!(matches!(k.initial_checks(None, K_HH_START, K_LH_START, K_LH_HH_OFFSET), Err(MemoryError::MemoryMapMbTagDoesNotExist)));
    let good = map_with(1);
    assert!(k.initial_checks(Some(&good), K_HH_START, K_LH_START, K_LH_HH_OFFSET).is_ok());
    let reserved = map_with(2);
    assert!(matches!(
        k.initial_checks(Some(&reserved), K_HH_START, K_LH_START, K_LH_HH_OFFSET),
        Err(MemoryError::BadMemoryPlacement)
    ));
    assert!(matches!(k.initial_checks(Some(&good), K_HH_START, 0x20_0000, K_LH_HH_OFFSET), Err(MemoryError::BadLinkerConfig)));
}

#[test]
fn initial_checks_kernel_too_large() {
    let region = vec![0u8; 0x1000];
    let alloc = ElfSectionFlags::from_bits_retain(ElfSectionFlags::ELF_SECTION_ALLOCATED);
    let big = vec![ElfSection::new(0x10_0000, 0x200_0000, alloc)];
    let mut k = Kernel::new();
    k.init(&big, 0x30_0010, 0x100, &region);
    let good = MemoryMapEntries(vec![MemoryMapEntry { base_addr: 0, length: 0x1000_0000, entry_type: 1, reserved: 0 }]);
    assert!(matches!(
        k.initial_checks(Some(&good), K_HH_START, K_LH_START, K_LH_HH_OFFSET),
        Err(MemoryError::BadTemporaryHigherHalfMapping)
    ));
}

#[test]
fn multiboot2_frames_cover_the_information() {
    assert_eq!(Kernel::mb_frames(0x10_0123, 0x20), Some((0x10_0000, 0x10_0fff)));
    assert_eq!(Kernel::mb_frames(0x10_0ff0, 0x20), Some((0x10_0000, 0x10_1fff)));
    assert_eq!(Kernel::mb_frames(0x10_0000, 0), None);
    assert_eq!(Kernel::mb_frames(u64::MAX - 0x10, 0x20), None);
}
