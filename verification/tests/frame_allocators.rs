use rsos::memory::{MemoryError, ProhibitedMemoryRange};
use rsos::memory::frames::bitmap_frame_allocator::BitmapFrameAllocator;
use rsos::memory::frames::simple_frame_allocator::SimpleFrameAllocator;
use rsos::multiboot2::memory_map::{MemoryMapEntries, MemoryMapEntry, MemoryMapEntryType};

fn area(base_addr: u64, length: u64, entry_type: u32) -> MemoryMapEntry {
    MemoryMapEntry { base_addr, length, entry_type, reserved: 0 }
}

fn two_areas() -> MemoryMapEntries {
    MemoryMapEntries(vec![area(0, 0x9_f000, 1), area(0x9_f000, 0x6_1000, 2), area(0x10_0000, 0x100_0000, 1)])
}

fn prohibited() -> Vec<ProhibitedMemoryRange> {
    vec![ProhibitedMemoryRange::new(0, 0xfff), ProhibitedMemoryRange::new(0x10_0000, 0x1f_ffff)]
}

#[test]
fn memory_map_entry_types_and_alignment() {
    let e = area(0x1234, 0x5000, 1);
    assert_eq!(e.entry_type(), MemoryMapEntryType::AvailableRAM);
    assert_eq!(e.aligned_base_addr(0x1000), 0x2000);
    assert_eq!(e.aligned_length(0x1000), 0x4000);
    assert_eq!(area(0, 0x1000, 3).entry_type(), MemoryMapEntryType::ACPIReclaimable);
    assert_eq!(area(0, 0x1000, 4).entry_type(), MemoryMapEntryType::ReservedHibernation);
    assert_eq!(area(0, 0x1000, 5).entry_type(), MemoryMapEntryType::Defective);
    assert_eq!(area(0, 0x1000, 7).entry_type(), MemoryMapEntryType::Reserved);
    // an area smaller than one aligned block has no aligned length
    assert_eq!(area(0x1001, 0x1000, 1).aligned_length(0x1000), 0);
}

#[test]
fn usable_areas_keep_available_ram_in_order() {
    let u = two_areas().usable_areas();
    assert_eq!(u.len(), 2);
    assert_eq!(u[0].base_addr, 0);
    assert_eq!(u[1].base_addr, 0x10_0000);
}

#[test]
fn bitmap_location_skips_prohibited_ranges() {
    let (start, bytes) = BitmapFrameAllocator::bitmap_location(&two_areas(), &prohibited()).ok().unwrap();
    // 0x9f frames + 0x1000 frames, one bit each, rounded up to whole bytes
    assert_eq!(bytes, (0x9f + 0x1000 + 7) / 8);
    assert_eq!(start, 0x1000);
}

#[test]
fn bitmap_location_without_room() {
    let entries = MemoryMapEntries(vec![area(0, 0x1000, 1)]);
    let p = vec![ProhibitedMemoryRange::new(0, 0xfff)];
    assert!(matches!(BitmapFrameAllocator::bitmap_location(&entries, &p), Err(MemoryError::NotEnoughPhyMemory)));
}

#[test]
fn bitmap_frame_allocator_hands_out_free_frames() {
    let entries = two_areas();
    let p = prohibited();
    let (start, bytes) = BitmapFrameAllocator::bitmap_location(&entries, &p).ok().unwrap();
    let mut mem = vec![0u8; bytes];
    let mut fa = BitmapFrameAllocator::new();
    assert!(fa.init(&entries, &p, start, &mut mem[..]).is_ok());
    let range = fa.prohibited_memory_range().unwrap();
    assert_eq!(range.start_addr(), start);
    assert_eq!(range.end_addr(), start + 0xfff);
    // frame 0 is prohibited, frame 1 holds the bitmap
    let f1 = fa.allocate_frame().ok().unwrap();
    assert_eq!(f1.addr(), 0x2000);
    let f2 = fa.allocate_frame().ok().unwrap();
    assert_eq!(f2.addr(), 0x3000);
    fa.deallocate_frame(f1);
    let mut seen = vec![f2.addr()];
    for _ in 0..10 {
        let f = fa.allocate_frame().ok().unwrap();
        assert!(!seen.contains(&f.addr()));
        assert!(f.addr() >= 0x2000);
        assert!(!(0x10_0000..0x20_0000).contains(&f.addr()));
        seen.push(f.addr());
    }
}

#[test]
fn bitmap_frame_allocator_never_gives_prohibited_frames() {
    let entries = MemoryMapEntries(vec![area(0x10_0000, 0x3_0000, 1)]);
    let p = vec![ProhibitedMemoryRange::new(0, 0xfff), ProhibitedMemoryRange::new(0x10_0000, 0x11_ffff)];
    let (start, bytes) = BitmapFrameAllocator::bitmap_location(&entries, &p).ok().unwrap();
    assert_eq!(start, 0x12_0000);
    let mut mem = vec![0u8; bytes];
    let mut fa = BitmapFrameAllocator::new();
    assert!(fa.init(&entries, &p, start, &mut mem[..]).is_ok());
    let mut count = 0;
    while let Ok(f) = fa.allocate_frame() {
        assert!(f.addr() >= 0x12_1000 && f.addr() < 0x13_0000);
        count += 1;
        if count > 64 {
            break;
        }
    }
    // 15 frames are free, but the allocation that takes the last one finds no next free frame and fails
    assert_eq!(count, 14);
}

#[test]
fn simple_frame_allocator_without_memory_map() {
    let mut fa = SimpleFrameAllocator::new();
    assert!(matches!(fa.init(None, &prohibited()), Err(MemoryError::MemoryMapMbTagDoesNotExist)));
}

#[test]
fn simple_frame_allocator_without_usable_area() {
    let mut fa = SimpleFrameAllocator::new();
    let entries = MemoryMapEntries(vec![area(0, 0x800, 1), area(0x10_0000, 0x10_0000, 2)]);
    assert!(matches!(fa.init(Some(entries), &[]), Err(MemoryError::NotEnoughPhyMemory)));
}

#[test]
fn simple_frame_allocator_starts_at_the_first_usable_area() {
    let mut fa = SimpleFrameAllocator::new();
    // a reserved area and a too small one come before the first usable area
    let entries = MemoryMapEntries(vec![area(0, 0x1_0000, 2), area(0x2_0000, 0x800, 1), area(0x10_0000, 0x3000, 1)]);
    assert!(fa.init(Some(entries), &[]).is_ok());
    assert_eq!(fa.allocate().ok().unwrap().addr(), 0x10_0000);
    assert_eq!(fa.allocate().ok().unwrap().addr(), 0x10_1000);
}

#[test]
fn simple_frame_allocator_walks_the_areas() {
    let mut fa = SimpleFrameAllocator::new();
    let entries = MemoryMapEntries(vec![area(0, 0x2000, 1), area(0x2000, 0x1000, 2), area(0x10_0000, 0x2000, 1)]);
    let p = vec![ProhibitedMemoryRange::new(0, 0xfff)];
    assert!(fa.init(Some(entries), &p).is_ok());
    assert!(fa.metadata_memory_range().is_none());
    // frame 0 is prohibited: the walk starts at frame 1
    assert_eq!(fa.allocate().ok().unwrap().addr(), 0x1000);
    // after an area's last frame the walk moves on to the next usable area
    assert_eq!(fa.allocate().ok().unwrap().addr(), 0x10_0000);
    // handing out the last frame finds no next frame: the walk ran out of areas
    assert!(matches!(fa.allocate(), Err(MemoryError::NotEnoughPhyMemory)));
}

#[test]
fn simple_frame_allocator_skips_prohibited_frames() {
    let mut fa = SimpleFrameAllocator::new();
    let entries = MemoryMapEntries(vec![area(0x10_0000, 0x10_0000, 1)]);
    let p = vec![ProhibitedMemoryRange::new(0x10_1000, 0x10_2fff)];
    assert!(fa.init(Some(entries), &p).is_ok());
    assert_eq!(fa.allocate().ok().unwrap().addr(), 0x10_0000);
    assert_eq!(fa.allocate().ok().unwrap().addr(), 0x10_3000);
    fa.deallocate(Frame::from_phy_addr(0x10_0000));
    fa.remap();
    assert_eq!(fa.allocate().ok().unwrap().addr(), 0x10_4000);
}

use rsos::memory::frames::Frame;
