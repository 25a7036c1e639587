use rsos::memory::{AddrOps, MemoryError, ProhibitedMemoryRange, FRAME_PAGE_SIZE};
use rsos::memory::frames::Frame;
use rsos::memory::pages::Page;
use rsos::memory::pages::page_table::{Entry, EntryFlags, Level4, Table, P4};
use rsos::multiboot2::elf_symbols::ElfSectionFlags;

#[test]
fn align_up_and_down() {
    assert_eq!(0x1234u64.align_down(0x1000), 0x1000);
    assert_eq!(0x1234u64.align_up(0x1000), 0x2000);
    assert_eq!(0x2000u64.align_up(0x1000), 0x2000);
    assert_eq!(0x2000u64.align_down(0x1000), 0x2000);
    assert_eq!(0u64.align_up(8), 0);
    assert_eq!(13u64.align_up(8), 16);
}

#[test]
fn prohibited_range_lengths() {
    let r = ProhibitedMemoryRange::new(0x1000, 0x2fff);
    assert_eq!(r.start_addr(), 0x1000);
    assert_eq!(r.end_addr(), 0x2fff);
    assert_eq!(r.length(), 0x2000);
    assert_eq!(r.frame_length(), 2);
    let e = ProhibitedMemoryRange::empty();
    assert_eq!(e.start_addr(), 0);
    assert_eq!(e.end_addr(), 0);
    assert_eq!(e.length(), 1);
    assert_eq!(e.frame_length(), 1);
}

#[test]
fn frame_address_round_trip() {
    let f = Frame::from_phy_addr(0x5432);
    assert_eq!(f.addr(), 0x5000);
    assert_eq!(Frame::from_phy_addr(f.addr()).addr(), f.addr());
    assert_eq!(Frame::from_phy_addr(0).addr(), 0);
}

#[test]
fn page_from_canonical_addresses() {
    let low = Page::from_virt_addr(0x0000_7fff_ffff_f123).ok().unwrap();
    assert_eq!(low.addr(), 0x0000_7fff_ffff_f000);
    let high = Page::from_virt_addr(0xffff_8000_0000_0000).ok().unwrap();
    assert_eq!(high.addr(), 0xffff_8000_0000_0000);
}

#[test]
fn page_from_non_canonical_address_fails() {
    assert!(matches!(Page::from_virt_addr(0x0000_8000_0000_0000), Err(MemoryError::PageInvalidVirtualAddress)));
    assert!(matches!(Page::from_virt_addr(0xffff_7fff_ffff_ffff), Err(MemoryError::PageInvalidVirtualAddress)));
}

#[test]
fn page_table_indexes() {
    // 0xdeadbeef: p4 0, p3 3, p2 245, p1 219
    let p = Page::from_virt_addr(0xdeadbeef).ok().unwrap();
    assert_eq!(p.p4_index(), 0);
    assert_eq!(p.p3_index(), 3);
    assert_eq!(p.p2_index(), 245);
    assert_eq!(p.p1_index(), 219);
    let q = Page::from_virt_addr(0xffff_ff80_0000_0000).ok().unwrap();
    assert_eq!(q.p4_index(), 511);
    assert_eq!(q.p3_index(), 0);
}

#[test]
fn entry_flags_operations() {
    let p = EntryFlags::from_bits_truncate(EntryFlags::PRESENT);
    let w = EntryFlags::from_bits_truncate(EntryFlags::WRITABLE);
    let pw = p.union(w);
    assert_eq!(pw.bits(), 3);
    assert!(pw.contains(p));
    assert!(!p.contains(w));
    let mut f = EntryFlags::empty();
    assert_eq!(f.bits(), 0);
    f.insert(EntryFlags::from_bits_truncate(EntryFlags::NO_EXECUTE));
    assert_eq!(f.bits(), 0x8000_0000_0000_0000);
    // bits that are not flags are dropped
    assert_eq!(EntryFlags::from_bits_truncate(0x1000 | 0x2).bits(), 0x2);
}

#[test]
fn entry_flags_from_elf_section_flags() {
    let w = ElfSectionFlags::from_bits_retain(ElfSectionFlags::ELF_SECTION_WRITABLE);
    assert_eq!(EntryFlags::from_elf_section_flags(w).bits(), 0x8000_0000_0000_0002);
    let a = ElfSectionFlags::from_bits_retain(ElfSectionFlags::ELF_SECTION_ALLOCATED);
    assert_eq!(EntryFlags::from_elf_section_flags(a).bits(), 0x8000_0000_0000_0001);
    let x = ElfSectionFlags::from_bits_retain(ElfSectionFlags::ELF_SECTION_EXECUTABLE);
    assert_eq!(EntryFlags::from_elf_section_flags(x).bits(), 0);
    let all = ElfSectionFlags::from_bits_retain(0x7);
    assert_eq!(EntryFlags::from_elf_section_flags(all).bits(), 3);
}

#[test]
fn entry_set_and_read() {
    let mut e = Entry::from_raw(0);
    assert!(!e.is_used());
    assert_eq!(e.phy_addr(), None);
    assert!(e.pointed_frame().is_none());
    let flags = EntryFlags::from_bits_truncate(EntryFlags::PRESENT | EntryFlags::WRITABLE);
    e.set(Frame::from_phy_addr(0x12_3000), flags);
    assert!(e.is_used());
    assert_eq!(e.phy_addr(), Some(0x12_3000));
    assert_eq!(e.pointed_frame().unwrap().addr(), 0x12_3000);
    assert_eq!(e.flags().bits(), 3);
    e.set_flags(EntryFlags::from_bits_truncate(EntryFlags::WRITABLE));
    assert_eq!(e.phy_addr(), None);
    e.set_unused();
    assert!(!e.is_used());
}

#[test]
fn next_table_address_of_present_entry() {
    let mut t: Table<Level4> = Table::new();
    assert_eq!(t.next_table_addr(P4, 3), None);
    t.entries[3].set(Frame::from_phy_addr(0x5000), EntryFlags::from_bits_truncate(EntryFlags::PRESENT));
    assert_eq!(t.next_table_addr(P4, 3), Some(0xffff_ffff_ffe0_3000));
    t.entries[4].set(
        Frame::from_phy_addr(0x6000),
        EntryFlags::from_bits_truncate(EntryFlags::PRESENT | EntryFlags::HUGE_PAGE),
    );
    assert_eq!(t.next_table_addr(P4, 4), None);
    t.set_unused();
    assert_eq!(t.next_table_addr(P4, 3), None);
}

#[test]
fn frame_page_size_is_4096() {
    assert_eq!(FRAME_PAGE_SIZE, 4096);
}
