use rsos::memory::{MemoryError, ProhibitedMemoryRange, FRAME_PAGE_SIZE};
use rsos::memory::frames::Frame;
use rsos::memory::frames::bitmap_frame_allocator::BitmapFrameAllocator;
use rsos::memory::pages::Page;
use rsos::memory::pages::page_table::EntryFlags;
use rsos::memory::pages::paging::ActivePagingContext;
use rsos::memory::pages::paging::inactive_paging_context::InactivePagingContext;
use rsos::memory::pages::temporary_page_allocator::TemporaryPageAllocator;
use rsos::memory::pages::global_page_allocator::GlobalPageAllocator;
use rsos::multiboot2::memory_map::{MemoryMapEntries, MemoryMapEntry};
use rsos::multiboot2::elf_symbols::{ElfSection, ElfSectionFlags};
use rsos::kernel::{Kernel, K_LH_HH_OFFSET};

fn entries() -> MemoryMapEntries {
    MemoryMapEntries(vec![MemoryMapEntry { base_addr: 0x10_0000, length: 0x100_0000, entry_type: 1, reserved: 0 }])
}

fn prohibited() -> Vec<ProhibitedMemoryRange> {
    vec![ProhibitedMemoryRange::new(0x10_0000, 0x1f_ffff)]
}

fn bitmap_memory() -> (u64, Vec<u8>) {
    let (start, bytes) = BitmapFrameAllocator::bitmap_location(&entries(), &prohibited()).ok().unwrap();
    (start, vec![0u8; bytes])
}

fn rw() -> EntryFlags {
    EntryFlags::from_bits_truncate(EntryFlags::PRESENT | EntryFlags::WRITABLE)
}

#[test]
fn map_then_translate() {
    let (start, mut mem) = bitmap_memory();
    let e = entries();
    let p = prohibited();
    let mut fa = BitmapFrameAllocator::new();
    assert!(fa.init(&e, &p, start, &mut mem[..]).is_ok());
    let mut ctx = ActivePagingContext::new();
    let page = Page::from_virt_addr(0xffff_8000_1234_5000).ok().unwrap();
    assert!(ctx.translate_page(page).is_none());
    assert!(matches!(ctx.translate(0xffff_8000_1234_5678), Ok(None)));
    assert!(ctx.map_page_to_frame(page, Frame::from_phy_addr(0x30_0000), rw(), &mut fa).is_ok());
    assert_eq!(ctx.translate_page(page).unwrap().addr(), 0x30_0000);
    assert!(matches!(ctx.translate(0xffff_8000_1234_5678), Ok(Some(0x30_0678))));
    // the neighbour page is still not mapped
    assert!(matches!(ctx.translate(0xffff_8000_1234_6000), Ok(None)));
}

#[test]
fn translate_non_canonical_address() {
    let ctx = ActivePagingContext::new();
    assert!(matches!(ctx.translate(0x0000_8000_0000_0000), Err(MemoryError::PageInvalidVirtualAddress)));
}

#[test]
fn mapping_a_used_page_fails() {
    let (start, mut mem) = bitmap_memory();
    let e = entries();
    let p = prohibited();
    let mut fa = BitmapFrameAllocator::new();
    assert!(fa.init(&e, &p, start, &mut mem[..]).is_ok());
    let mut ctx = ActivePagingContext::new();
    let page = Page::from_virt_addr(0x40_0000).ok().unwrap();
    assert!(ctx.map_page_to_frame(page, Frame::from_phy_addr(0x30_0000), rw(), &mut fa).is_ok());
    let again = ctx.map_page_to_frame(page, Frame::from_phy_addr(0x31_0000), rw(), &mut fa);
    assert!(matches!(again, Err(MemoryError::MappingUsedTableEntry)));
    assert_eq!(ctx.translate_page(page).unwrap().addr(), 0x30_0000);
}

#[test]
fn map_then_unmap_restores_translations() {
    let (start, mut mem) = bitmap_memory();
    let e = entries();
    let p = prohibited();
    let mut fa = BitmapFrameAllocator::new();
    assert!(fa.init(&e, &p, start, &mut mem[..]).is_ok());
    let mut ctx = ActivePagingContext::new();
    let other = Page::from_virt_addr(0x40_0000).ok().unwrap();
    assert!(ctx.map_page(other, rw(), &mut fa).is_ok());
    let other_frame = ctx.translate_page(other).unwrap().addr();
    let page = Page::from_virt_addr(0xffff_9000_0000_0000).ok().unwrap();
    assert!(ctx.map_page_to_frame(page, Frame::from_phy_addr(0x50_0000), rw(), &mut fa).is_ok());
    assert!(ctx.unmap_page(page, false, &mut fa).is_ok());
    assert!(ctx.translate_page(page).is_none());
    assert_eq!(ctx.translate_page(other).unwrap().addr(), other_frame);
}

#[test]
fn unmapping_an_unused_page_is_ignored() {
    let (start, mut mem) = bitmap_memory();
    let e = entries();
    let p = prohibited();
    let mut fa = BitmapFrameAllocator::new();
    assert!(fa.init(&e, &p, start, &mut mem[..]).is_ok());
    let mut ctx = ActivePagingContext::new();
    let page = Page::from_virt_addr(0x40_0000).ok().unwrap();
    assert!(ctx.unmap_page(page, true, &mut fa).is_ok());
    assert!(ctx.translate_page(page).is_none());
    // a page next to a mapped one, in the same tables, is ignored as well
    let mapped = Page::from_virt_addr(0x40_1000).ok().unwrap();
    assert!(ctx.map_page_to_frame(mapped, Frame::from_phy_addr(0x30_0000), rw(), &mut fa).is_ok());
    assert!(ctx.unmap_page(page, true, &mut fa).is_ok());
    assert_eq!(ctx.translate_page(mapped).unwrap().addr(), 0x30_0000);
}

#[test]
fn map_and_identity_map() {
    let (start, mut mem) = bitmap_memory();
    let e = entries();
    let p = prohibited();
    let mut fa = BitmapFrameAllocator::new();
    assert!(fa.init(&e, &p, start, &mut mem[..]).is_ok());
    let mut ctx = ActivePagingContext::new();
    assert!(ctx.map(0xffff_8000_0000_0123, rw(), &mut fa).is_ok());
    assert!(matches!(ctx.translate(0xffff_8000_0000_0123), Ok(Some(_))));
    assert!(ctx.identity_map(Frame::from_phy_addr(0x7000), rw(), &mut fa).is_ok());
    assert!(matches!(ctx.translate(0x7abc), Ok(Some(0x7abc))));
}

#[test]
fn inactive_context_takes_a_frame() {
    let (start, mut mem) = bitmap_memory();
    let e = entries();
    let p = prohibited();
    let mut fa = BitmapFrameAllocator::new();
    assert!(fa.init(&e, &p, start, &mut mem[..]).is_ok());
    let a = InactivePagingContext::new(&mut fa).ok().unwrap();
    let b = InactivePagingContext::new(&mut fa).ok().unwrap();
    assert_ne!(a.p4_frame().addr(), b.p4_frame().addr());
    assert!(a.p4_frame().addr() >= 0x20_0000);
}

#[test]
fn temporary_page_allocator_hands_out_its_pages_in_order() {
    let (start, mut mem) = bitmap_memory();
    let e = entries();
    let p = prohibited();
    let mut fa = BitmapFrameAllocator::new();
    assert!(fa.init(&e, &p, start, &mut mem[..]).is_ok());
    let mut ctx = ActivePagingContext::new();
    let mut pa = TemporaryPageAllocator::new();
    assert!(pa.init(&ctx).is_ok());
    let first = pa.allocate(false, &mut ctx, &mut fa).ok().unwrap();
    assert_eq!(first.addr(), 0x4000_0000);
    let second = pa.allocate(true, &mut ctx, &mut fa).ok().unwrap();
    assert_eq!(second.addr(), 0x4000_0000 + FRAME_PAGE_SIZE);
    assert!(ctx.translate_page(second).is_some());
    assert!(ctx.translate_page(first).is_none());
    // a freed page is handed out again first
    pa.deallocate(first, false, &mut ctx, &mut fa);
    assert_eq!(pa.allocate(false, &mut ctx, &mut fa).ok().unwrap().addr(), 0x4000_0000);
    pa.deallocate(second, true, &mut ctx, &mut fa);
    assert!(ctx.translate_page(second).is_none());
}

#[test]
fn temporary_page_allocator_runs_out() {
    let (start, mut mem) = bitmap_memory();
    let e = entries();
    let p = prohibited();
    let mut fa = BitmapFrameAllocator::new();
    assert!(fa.init(&e, &p, start, &mut mem[..]).is_ok());
    let mut ctx = ActivePagingContext::new();
    let mut pa = TemporaryPageAllocator::new();
    assert!(pa.init(&ctx).is_ok());
    for i in 0..8u64 {
        assert_eq!(pa.allocate(false, &mut ctx, &mut fa).ok().unwrap().addr(), 0x4000_0000 + i * FRAME_PAGE_SIZE);
    }
    assert!(matches!(pa.allocate(false, &mut ctx, &mut fa), Err(MemoryError::NotEnoughVirMemory)));
    let third = Page::from_virt_addr(0x4000_2000).ok().unwrap();
    pa.deallocate_contiguous(third, 3, false, &mut ctx, &mut fa);
    assert_eq!(pa.allocate(false, &mut ctx, &mut fa).ok().unwrap().addr(), 0x4000_2000);
}

#[test]
fn global_page_allocator_switches_stages() {
    let (start, mut mem) = bitmap_memory();
    let e = entries();
    let p = prohibited();
    let mut fa = BitmapFrameAllocator::new();
    assert!(fa.init(&e, &p, start, &mut mem[..]).is_ok());
    let mut ctx = ActivePagingContext::new();
    let mut gpa = GlobalPageAllocator::new();
    let level2_start: u64 = 0xffff_8000_0010_0000;
    assert!(gpa.init(&ctx, level2_start).is_ok());
    // first stage: the temporary pages
    let t = gpa.allocate(&mut ctx, &mut fa).ok().unwrap();
    assert_eq!(t.addr(), 0x4000_0000);
    gpa.deallocate(t, &mut ctx, &mut fa);
    assert_eq!(gpa.allocate(&mut ctx, &mut fa).ok().unwrap().addr(), 0x4000_0000);
    // second stage: the bitmap allocator in the higher half
    gpa.switch();
    assert!(gpa.init(&ctx, level2_start).is_ok());
    let a = gpa.allocate(&mut ctx, &mut fa).ok().unwrap();
    assert!(a.addr() >= level2_start + 261120 * 16384);
    let b = gpa.allocate_contiguous(3).ok().unwrap();
    assert_eq!(b.addr(), a.addr() + FRAME_PAGE_SIZE);
    gpa.deallocate_contiguous(b, 3, &mut ctx, &mut fa);
    gpa.deallocate(a, &mut ctx, &mut fa);
    assert_eq!(gpa.allocate(&mut ctx, &mut fa).ok().unwrap().addr(), a.addr());
}

#[test]
fn page_table_entries_hold_frame_and_flags() {
    let (start, mut mem) = bitmap_memory();
    let e = entries();
    let p = prohibited();
    let mut fa = BitmapFrameAllocator::new();
    assert!(fa.init(&e, &p, start, &mut mem[..]).is_ok());
    let mut ctx = ActivePagingContext::new();
    // page 0x400 has the indexes 0, 0, 2, 0
    let page = Page::from_virt_addr(0x40_0000).ok().unwrap();
    assert!(ctx.map_page_to_frame(page, Frame::from_phy_addr(0x30_0000), rw(), &mut fa).is_ok());
    assert_ne!(ctx.p4_entries()[0], 0);
    assert!(ctx.p3_entries(1).is_none());
    assert!(ctx.p2_entries(0, 0).is_some());
    assert!(ctx.p1_entries(0, 0, 1).is_none());
    let p1 = ctx.p1_entries(0, 0, 2).unwrap();
    assert_eq!(p1[0], 0x30_0000 | 0x3);
    assert_eq!(p1[1], 0);
}

fn kernel_sections() -> Vec<ElfSection> {
    let alloc = ElfSectionFlags::from_bits_retain(ElfSectionFlags::ELF_SECTION_ALLOCATED);
    let none = ElfSectionFlags::from_bits_retain(0);
    vec![
        ElfSection::new(0x100_0000, 0x2345, alloc),
        ElfSection::new(0x110_0000, 0x100, none),
        ElfSection::new(0x120_0000, 0x1000, alloc),
    ]
}

#[test]
fn remap_moves_kernel_multiboot_and_allocator_memory_up() {
    let (start, mut mem) = bitmap_memory();
    let e = entries();
    let p = prohibited();
    let mut fa = BitmapFrameAllocator::new();
    assert!(fa.init(&e, &p, start, &mut mem[..]).is_ok());
    let region = vec![0u8; 0x1000];
    let secs = kernel_sections();
    let mut k = Kernel::new();
    k.init(&secs, 0x130_0010, 0x100, &region);
    let fa_range = fa.prohibited_memory_range();
    let mut ctx = ActivePagingContext::new();
    let r = rsos::memory::remap(&k, Some(&secs), fa_range, &mut ctx, &mut fa);
    assert!(r.is_ok(), "{:?}", r.err());
    // every frame of the allocated sections, one page per frame, K_LH_HH_OFFSET bytes up
    for addr in [0x100_0000u64, 0x100_1000, 0x100_2000, 0x120_0000] {
        assert!(matches!(ctx.translate(addr + K_LH_HH_OFFSET + 0x10), Ok(Some(a)) if a == addr + 0x10));
    }
    // the frame past the first section, and the section that is not allocated, are not mapped
    assert!(matches!(ctx.translate(0x100_3000 + K_LH_HH_OFFSET), Ok(None)));
    assert!(matches!(ctx.translate(0x110_0000 + K_LH_HH_OFFSET), Ok(None)));
    // the multiboot2 information goes right after the kernel
    let mb_off = k.mb_lh_hh_offset();
    assert_eq!(mb_off % FRAME_PAGE_SIZE, 0);
    assert!(0x130_0000 + mb_off > k.k_end() + K_LH_HH_OFFSET);
    assert!(matches!(ctx.translate(0x130_0010 + mb_off), Ok(Some(0x130_0010))));
    // and the frame allocator's memory right after it
    let range = fa_range.unwrap();
    let fa_off = k.fa_hh_start() - range.start_addr();
    assert!(matches!(ctx.translate(range.start_addr() + fa_off), Ok(Some(a)) if a == range.start_addr()));
    assert!(matches!(ctx.translate(range.end_addr() + fa_off), Ok(Some(a)) if a == range.end_addr()));
    // a second remapping into the same context meets the pages it mapped
    assert!(matches!(
        rsos::memory::remap(&k, Some(&secs), fa_range, &mut ctx, &mut fa),
        Err(MemoryError::MappingUsedTableEntry)
    ));
}

#[test]
fn remap_refuses_missing_and_misaligned_sections() {
    let (start, mut mem) = bitmap_memory();
    let e = entries();
    let p = prohibited();
    let mut fa = BitmapFrameAllocator::new();
    assert!(fa.init(&e, &p, start, &mut mem[..]).is_ok());
    let region = vec![0u8; 0x1000];
    let secs = kernel_sections();
    let mut k = Kernel::new();
    k.init(&secs, 0x130_0010, 0x100, &region);
    let mut ctx = ActivePagingContext::new();
    assert!(matches!(
        rsos::memory::remap(&k, None, None, &mut ctx, &mut fa),
        Err(MemoryError::ElfSymbolsMbTagDoesNotExist)
    ));
    let alloc = ElfSectionFlags::from_bits_retain(ElfSectionFlags::ELF_SECTION_ALLOCATED);
    let bad = vec![ElfSection::new(0x100_0010, 0x100, alloc)];
    assert!(matches!(
        rsos::memory::remap(&k, Some(&bad), None, &mut ctx, &mut fa),
        Err(MemoryError::MisalignedKernelSection)
    ));
}
