use rsos::memory::{MemoryError, ProhibitedMemoryRange, FRAME_PAGE_SIZE};
use rsos::memory::frames::bitmap_frame_allocator::BitmapFrameAllocator;
use rsos::memory::pages::paging::ActivePagingContext;
use rsos::memory::pages::simple_page_allocator::BitmapPageAllocator;
use rsos::memory::simple_heap_allocator::SimpleHeapAllocator;
use rsos::multiboot2::memory_map::{MemoryMapEntries, MemoryMapEntry};

const LEVEL2_START: u64 = 0xffff_8000_0010_0000;

fn entries() -> MemoryMapEntries {
    MemoryMapEntries(vec![MemoryMapEntry { base_addr: 0x10_0000, length: 0x200_0000, entry_type: 1, reserved: 0 }])
}

fn prohibited() -> Vec<ProhibitedMemoryRange> {
    vec![ProhibitedMemoryRange::new(0x10_0000, 0x1f_ffff)]
}

#[test]
fn level2_bitmaps_start_after_the_frame_allocator_metadata() {
    let m = ProhibitedMemoryRange::new(0x1000, 0x2fff);
    assert_eq!(BitmapPageAllocator::level2_bitmaps_start_addr(0xffff_8000_0000_0000, Some(m)), 0xffff_8000_0000_4000);
    assert_eq!(BitmapPageAllocator::level2_bitmaps_start_addr(0xffff_8000_0000_1000, None), 0xffff_8000_0000_4000);
    assert_eq!(BitmapPageAllocator::level2_bitmaps_start_addr(0xffff_8000_0000_4000, None), 0xffff_8000_0000_4000);
}

#[test]
fn page_allocator_first_fit() {
    let mut pa = BitmapPageAllocator::new();
    pa.init(LEVEL2_START);
    let a = pa.allocate().ok().unwrap();
    let b = pa.allocate().ok().unwrap();
    assert_eq!(b.addr(), a.addr() + FRAME_PAGE_SIZE);
    // allocations start after the memory that the level 2 bitmaps may take
    assert!(a.addr() >= LEVEL2_START + 261120 * 16384);
    let c = pa.allocate_contiguous(3).ok().unwrap();
    assert_eq!(c.addr(), b.addr() + FRAME_PAGE_SIZE);
    let d = pa.allocate().ok().unwrap();
    assert_eq!(d.addr(), c.addr() + 3 * FRAME_PAGE_SIZE);
}

#[test]
fn page_allocator_reuses_freed_pages() {
    let mut pa = BitmapPageAllocator::new();
    pa.init(LEVEL2_START);
    let a = pa.allocate().ok().unwrap();
    let b = pa.allocate_contiguous(4).ok().unwrap();
    pa.deallocate(a);
    assert_eq!(pa.allocate().ok().unwrap().addr(), a.addr());
    pa.deallocate_contiguous(b, 4);
    // a block of 2 fits where the freed one was
    assert_eq!(pa.allocate_contiguous(2).ok().unwrap().addr(), b.addr());
}

#[test]
fn heap_allocations_follow_each_other() {
    let (start, bytes) = BitmapFrameAllocator::bitmap_location(&entries(), &prohibited()).ok().unwrap();
    let mut mem = vec![0u8; bytes];
    let e = entries();
    let p = prohibited();
    let mut fa = BitmapFrameAllocator::new();
    assert!(fa.init(&e, &p, start, &mut mem[..]).is_ok());
    let mut ctx = ActivePagingContext::new();
    let mut pa = BitmapPageAllocator::new();
    pa.init(LEVEL2_START);
    let mut heap = SimpleHeapAllocator::new();
    assert!(heap.init(4, &mut pa, &mut ctx, &mut fa).is_ok());
    let a = heap.allocate(32, 8, &mut ctx, &mut fa).ok().unwrap();
    assert_eq!(a % FRAME_PAGE_SIZE, 0);
    assert!(matches!(ctx.translate(a), Ok(Some(_))));
    let b = heap.allocate(10, 8, &mut ctx, &mut fa).ok().unwrap();
    assert_eq!(b, a + 32);
    // blocks are at least 16 bytes
    let c = heap.allocate(1, 1, &mut ctx, &mut fa).ok().unwrap();
    assert_eq!(c, b + 16);
    // a block that reaches the next page maps it
    let big = heap.allocate(8000, 16, &mut ctx, &mut fa).ok().unwrap();
    assert_eq!(big, c + 16);
    assert!(matches!(ctx.translate(big + 7999), Ok(Some(_))));
}

#[test]
fn heap_freed_blocks_are_reused() {
    let (start, bytes) = BitmapFrameAllocator::bitmap_location(&entries(), &prohibited()).ok().unwrap();
    let mut mem = vec![0u8; bytes];
    let e = entries();
    let p = prohibited();
    let mut fa = BitmapFrameAllocator::new();
    assert!(fa.init(&e, &p, start, &mut mem[..]).is_ok());
    let mut ctx = ActivePagingContext::new();
    let mut pa = BitmapPageAllocator::new();
    pa.init(LEVEL2_START);
    let mut heap = SimpleHeapAllocator::new();
    assert!(heap.init(2, &mut pa, &mut ctx, &mut fa).is_ok());
    let a = heap.allocate(64, 8, &mut ctx, &mut fa).ok().unwrap();
    let b = heap.allocate(64, 8, &mut ctx, &mut fa).ok().unwrap();
    heap.deallocate(a, 64, 8);
    // the first freed block that fits is taken
    assert_eq!(heap.allocate(16, 8, &mut ctx, &mut fa).ok().unwrap(), a);
    assert_eq!(heap.allocate(48, 8, &mut ctx, &mut fa).ok().unwrap(), a + 16);
    // freeing neighbours joins them into one block
    heap.deallocate(a, 16, 8);
    assert_eq!(heap.freed_blocks(), &[(a, 16)][..]);
    heap.deallocate(a + 16, 48, 8);
    assert_eq!(heap.freed_blocks(), &[(a, 64)][..]);
    assert_eq!(heap.allocate(64, 8, &mut ctx, &mut fa).ok().unwrap(), a);
    assert!(b > a);
}

#[test]
fn heap_aligned_allocation_leaves_padding_block() {
    let (start, bytes) = BitmapFrameAllocator::bitmap_location(&entries(), &prohibited()).ok().unwrap();
    let mut mem = vec![0u8; bytes];
    let e = entries();
    let p = prohibited();
    let mut fa = BitmapFrameAllocator::new();
    assert!(fa.init(&e, &p, start, &mut mem[..]).is_ok());
    let mut ctx = ActivePagingContext::new();
    let mut pa = BitmapPageAllocator::new();
    pa.init(LEVEL2_START);
    let mut heap = SimpleHeapAllocator::new();
    assert!(heap.init(4, &mut pa, &mut ctx, &mut fa).is_ok());
    let a = heap.allocate(16, 16, &mut ctx, &mut fa).ok().unwrap();
    let b = heap.allocate(64, 64, &mut ctx, &mut fa).ok().unwrap();
    assert_eq!(b % 64, 0);
    // the end of the heap (a + 16) is not aligned: the block moves past a padding block
    assert_eq!(b, a + 128);
    // the gap before the aligned block is handed out to a small request
    assert_eq!(heap.allocate(16, 8, &mut ctx, &mut fa).ok().unwrap(), a + 16);
}

#[test]
fn heap_capacity_check() {
    let (start, bytes) = BitmapFrameAllocator::bitmap_location(&entries(), &prohibited()).ok().unwrap();
    let mut mem = vec![0u8; bytes];
    let e = entries();
    let p = prohibited();
    let mut fa = BitmapFrameAllocator::new();
    assert!(fa.init(&e, &p, start, &mut mem[..]).is_ok());
    let mut ctx = ActivePagingContext::new();
    let mut pa = BitmapPageAllocator::new();
    pa.init(LEVEL2_START);
    let mut heap = SimpleHeapAllocator::new();
    assert!(heap.init(1, &mut pa, &mut ctx, &mut fa).is_ok());
    assert!(heap.can_allocate(4096, 8));
    assert!(!heap.can_allocate(4097, 8));
    let a = heap.allocate(4000, 8, &mut ctx, &mut fa).ok().unwrap();
    assert!(!heap.can_allocate(100, 8));
    assert!(heap.can_allocate(96, 8));
    heap.deallocate(a, 4000, 8);
    assert!(heap.can_allocate(4000, 8));
}

#[test]
fn heap_init_without_virtual_memory() {
    let (start, bytes) = BitmapFrameAllocator::bitmap_location(&entries(), &prohibited()).ok().unwrap();
    let mut mem = vec![0u8; bytes];
    let e = entries();
    let p = prohibited();
    let mut fa = BitmapFrameAllocator::new();
    assert!(fa.init(&e, &p, start, &mut mem[..]).is_ok());
    let mut ctx = ActivePagingContext::new();
    let mut pa = BitmapPageAllocator::new();
    pa.init(LEVEL2_START);
    let mut heap = SimpleHeapAllocator::new();
    // more pages than the higher half holds
    let r = heap.init(usize::MAX / 2, &mut pa, &mut ctx, &mut fa);
    assert!(matches!(r, Err(MemoryError::NotEnoughVirMemory)));
}

#[test]
fn heap_blocks_in_use_never_overlap() {
    let (start, mut mem) = {
        let (s, b) = BitmapFrameAllocator::bitmap_location(&entries(), &prohibited()).ok().unwrap();
        (s, vec![0u8; b])
    };
    let e = entries();
    let p = prohibited();
    let mut fa = BitmapFrameAllocator::new();
    assert!(fa.init(&e, &p, start, &mut mem[..]).is_ok());
    let mut ctx = ActivePagingContext::new();
    let mut pa = BitmapPageAllocator::new();
    pa.init(LEVEL2_START);
    let mut heap = SimpleHeapAllocator::new();
    assert!(heap.init(4, &mut pa, &mut ctx, &mut fa).is_ok());
    // (address, bytes taken) of the blocks in use
    let mut live: Vec<(u64, u64)> = Vec::new();
    for (size, align) in [(40u64, 8u64), (16, 16), (100, 64), (24, 8), (300, 128)] {
        let a = heap.allocate(size, align, &mut ctx, &mut fa).ok().unwrap();
        live.push((a, size));
    }
    heap.deallocate(live[1].0, 16, 16);
    heap.deallocate(live[3].0, 24, 8);
    live.remove(3);
    live.remove(1);
    for (size, align) in [(16u64, 8u64), (8, 8), (64, 64)] {
        let a = heap.allocate(size, align, &mut ctx, &mut fa).ok().unwrap();
        assert_eq!(a % align, 0);
        live.push((a, size));
    }
    for (i, &(a, n)) in live.iter().enumerate() {
        for &(b, m) in live.iter().skip(i + 1) {
            assert!(a + n <= b || b + m <= a, "{:#x}+{} meets {:#x}+{}", a, n, b, m);
        }
        for &(f, k) in heap.freed_blocks() {
            assert!(a + n <= f || f + k <= a);
        }
    }
}
