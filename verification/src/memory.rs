//! Addresses, alignment, prohibited memory ranges and the memory error type.
use vstd::prelude::*;
use vstd::arithmetic::power2::pow2;
use vstd::bits::low_bits_mask;

pub mod frames;
pub mod pages;
pub mod simple_heap_allocator;

use crate::kernel::{Kernel, K_LH_HH_OFFSET};
use crate::memory::frames::{frame_fits, lemma_can_hand_out_le, Frame, FrameAllocator};
use crate::memory::pages::{is_canonical, Page};
use crate::memory::pages::page_table::EntryFlags;
use crate::memory::pages::paging::{lemma_near_pages_keys, lemma_same_key_same_translation, lemma_translation_is_entry_frame, page_key, pages_free, ActivePagingContext};
use crate::memory::pages::page_table::{elf_entry_flags, entry_set_value};
use crate::multiboot2::elf_symbols::{is_allocated, ElfSection, ElfSectionFlags};

verus! {

/// The size of the pages and frames.
pub const FRAME_PAGE_SIZE: u64 = 4096;

/// Addresses are 64 bits wide: this is an x86_64 kernel.
pub type PhysicalAddress = u64;

pub type VirtualAddress = u64;

/// `a` is a power of two that fits in a `u64`.
pub open spec fn is_power_of_two(a: u64) -> bool {
    exists|n: nat| n < 64 && a == pow2(n)
}

/// The largest multiple of `align` that is not above `x`.
pub open spec fn align_down_spec(x: int, align: int) -> int {
    x - x % align
}

/// The smallest multiple of `align` that is not below `x`.
pub open spec fn align_up_spec(x: int, align: int) -> int {
    if x % align == 0 {
        x
    } else {
        x - x % align + align
    }
}

/// `FRAME_PAGE_SIZE` is a power of two.
pub proof fn lemma_frame_page_size_power_of_two()
    ensures
        is_power_of_two(FRAME_PAGE_SIZE),
{
    vstd::arithmetic::power2::lemma2_to64();
    assert(FRAME_PAGE_SIZE == pow2(12));
}

/// 8 is a power of two.
pub proof fn lemma_eight_power_of_two()
    ensures
        is_power_of_two(8),
{
    vstd::arithmetic::power2::lemma2_to64();
    assert(8 == pow2(3));
}

/// Masking with `!(align - 1)` rounds down to a multiple of a power of two `align`.
proof fn lemma_mask_is_align_down(x: u64, align: u64)
    requires
        is_power_of_two(align),
    ensures
        align >= 1,
        x & !((align - 1) as u64) == x - x % align,
        x & ((align - 1) as u64) == x % align,
{
    let n = choose|n: nat| n < 64 && align == pow2(n);
    vstd::bits::lemma_u64_pow2_no_overflow(n);
    vstd::bits::lemma_u64_low_bits_mask_is_mod(x, n);
    assert(low_bits_mask(n) == pow2(n) - 1);
    let m = (align - 1) as u64;
    assert(x & m == x % align);
    assert(x & !m == (x - (x & m)) as u64) by (bit_vector);
    assert(x & m <= x) by (bit_vector);
}

/// Address alignment operations.
pub trait AddrOps {
    /// The address as an integer.
    spec fn addr_value(&self) -> int;

    /// Round down to a multiple of `align`.
    fn align_down(&self, align: u64) -> (r: u64)
        requires
            is_power_of_two(align),
        ensures
            r == align_down_spec(self.addr_value(), align as int),
    ;

    /// Round up to a multiple of `align`.
    fn align_up(&self, align: u64) -> (r: u64)
        requires
            is_power_of_two(align),
            self.addr_value() + align - 1 <= u64::MAX,
        ensures
            r == align_up_spec(self.addr_value(), align as int),
    ;
}

// this implements AddrsOps for both VirtualAddress and PhysicalAddress
impl AddrOps for u64 {
    open spec fn addr_value(&self) -> int {
        *self as int
    }

    fn align_down(&self, align: u64) -> (r: u64) {
        proof {
            lemma_mask_is_align_down(*self, align);
        }
        *self & !(align - 1)
    }

    fn align_up(&self, align: u64) -> (r: u64) {
        proof {
            lemma_mask_is_align_down(*self, align);
        }
        let y = *self + (align - 1);
        proof {
            lemma_mask_is_align_down(y, align);
            let x = *self as int;
            let a = align as int;
            assert(y as int - (y as int) % a == align_up_spec(x, a)) by {
                vstd::arithmetic::div_mod::lemma_fundamental_div_mod(x, a);
                vstd::arithmetic::div_mod::lemma_fundamental_div_mod(y as int, a);
                if x % a == 0 {
                    vstd::arithmetic::div_mod::lemma_mod_add_multiples_vanish(x + a - 1, a);
                    assert((x + a - 1) % a == a - 1) by {
                        vstd::arithmetic::div_mod::lemma_add_mod_noop(x, a - 1, a);
                        vstd::arithmetic::div_mod::lemma_small_mod((a - 1) as nat, a as nat);
                    }
                } else {
                    vstd::arithmetic::div_mod::lemma_add_mod_noop(x, a - 1, a);
                    vstd::arithmetic::div_mod::lemma_small_mod((a - 1) as nat, a as nat);
                    let r = x % a;
                    assert(0 < r < a);
                    assert((r + (a - 1)) % a == r - 1) by {
                        vstd::arithmetic::div_mod::lemma_mod_add_multiples_vanish(r - 1, a);
                        vstd::arithmetic::div_mod::lemma_small_mod((r - 1) as nat, a as nat);
                    }
                }
            }
        }
        y & !(align - 1)
    }
}

/// Represents a memory range that MUST not be touched by frame/page allocators.
///
/// This memory regions are expected to be identity mapped and as such, these addrs are virtual and physical.
///
/// The addrs are both inclusive. The start address is guaranteed to be **0** or a multiple of **FRAME_PAGE_SIZE**, while the end address is guaranteed
/// to be **0** or else, the **end address + 1** is a multiple of **FRAME_PAGE_SIZE**.
#[derive(Clone, Copy)]
pub struct ProhibitedMemoryRange {
    start_addr: PhysicalAddress,
    end_addr: PhysicalAddress,
}

/// The alignment that the two ends of a prohibited range keep.
pub open spec fn valid_range_ends(start_addr: u64, end_addr: u64) -> bool {
    &&& start_addr % FRAME_PAGE_SIZE == 0
    &&& end_addr < u64::MAX
    &&& (end_addr == 0 || (end_addr + 1) % FRAME_PAGE_SIZE as int == 0)
}

impl ProhibitedMemoryRange {
    #[verifier::type_invariant]
    spec fn inv(self) -> bool {
        valid_range_ends(self.start_addr, self.end_addr)
    }

    /// The first address of the range.
    pub closed spec fn start(self) -> u64 {
        self.start_addr
    }

    /// The last address of the range.
    pub closed spec fn end(self) -> u64 {
        self.end_addr
    }

    /// The addresses that the range holds.
    pub open spec fn contains(self, addr: int) -> bool {
        self.start() <= addr <= self.end()
    }

    /// Creates a `ProhibitedMemoryRange`.
    pub fn new(start_addr: PhysicalAddress, end_addr: PhysicalAddress) -> (r: ProhibitedMemoryRange)
        requires
            valid_range_ends(start_addr, end_addr),
        ensures
            r.start() == start_addr,
            r.end() == end_addr,
    {
        ProhibitedMemoryRange { start_addr, end_addr }
    }

    /// Creates a `ProhibitedMemoryRange` with both addrs as 0.
    pub fn empty() -> (r: ProhibitedMemoryRange)
        ensures
            r.start() == 0,
            r.end() == 0,
    {
        ProhibitedMemoryRange::new(0, 0)
    }

    pub fn start_addr(&self) -> (r: PhysicalAddress)
        ensures
            r == self.start(),
            valid_range_ends(self.start(), self.end()),
    {
        proof {
            use_type_invariant(self);
        }
        self.start_addr
    }

    pub fn end_addr(&self) -> (r: PhysicalAddress)
        ensures
            r == self.end(),
            valid_range_ends(self.start(), self.end()),
    {
        proof {
            use_type_invariant(self);
        }
        self.end_addr
    }

    /// Get the prohibited range length in bytes.
    pub fn length(&self) -> (r: u64)
        requires
            self.start() <= self.end(),
        ensures
            r == self.end() - self.start() + 1,
    {
        proof {
            use_type_invariant(self);
        }
        self.end_addr - self.start_addr + 1
    }

    /// Get the prohibited range length in frames.
    pub fn frame_length(&self) -> (r: u64)
        requires
            self.start() <= self.end(),
            self.end() - self.start() + FRAME_PAGE_SIZE <= u64::MAX,
        ensures
            r == align_up_spec(self.end() - self.start() + 1, FRAME_PAGE_SIZE as int) / FRAME_PAGE_SIZE as int,
    {
        proof {
            lemma_frame_page_size_power_of_two();
        }
        self.length().align_up(FRAME_PAGE_SIZE) / FRAME_PAGE_SIZE
    }
}

#[derive(Debug, PartialEq, Eq, Structural, Clone, Copy)]
pub enum MemoryError {
    /// Tried creating a page with an invalid x86_64 addr (non canonical address).
    PageInvalidVirtualAddress,
    /// A frame allocator ran out of memory.
    NotEnoughPhyMemory,
    /// A page allocator ran out of memory.
    NotEnoughVirMemory,
    /// A kernel ELF section that is not FRAME_PAGE_SIZE aligned.
    MisalignedKernelSection,
    /// The user is trying to map to a used page table entry.
    MappingUsedTableEntry,
    /// The user is trying to unmap an unused page table entry.
    UnmappingUnusedTableEntry,
    /// The allocator gave an addr that is not FRAME_PAGE_SIZE aligned.
    FrameInvalidAllocatorAddr,
    /// The kernel was placed in a way that overlaps with memory rigions that are not `AvailableRAM`.
    BadMemoryPlacement,
    /// The start address given to the temporary page allocator conflicts with other mappings.
    BadTemporaryPageAllocator,
    /// The kernel does not fit in the higher half mapping that the bootstrap code made.
    BadTemporaryHigherHalfMapping,
    /// The linker script addresses differ from the ones the kernel expects.
    BadLinkerConfig,
    /// The `ElfSymbols` multiboot2 tag does not exist.
    ElfSymbolsMbTagDoesNotExist,
    /// The `MemoryMap` multiboot2 tag does not exist.
    MemoryMapMbTagDoesNotExist,
}

/// Frame `f` is mapped from page `f + off_pages`.
pub open spec fn mapped_at(ctx: ActivePagingContext, f: u64, off_pages: u64) -> bool {
    ctx.translation((f + off_pages) as u64) == Some(f)
}

/// Every frame in `[first, last]` is mapped from the page `off_pages` pages further.
pub open spec fn range_mapped(ctx: ActivePagingContext, first: u64, last: u64, off_pages: u64) -> bool {
    forall|f: u64| first <= f <= last ==> #[trigger] mapped_at(ctx, f, off_pages)
}

/// Every frame in `[first, last]` is mapped from the page `off_pages` pages further by a P1 entry with
/// flags `fl` (the present flag among them).
pub open spec fn range_flags(ctx: ActivePagingContext, first: u64, last: u64, off_pages: u64, fl: u64) -> bool {
    forall|f: u64| first <= f <= last ==> #[trigger] ctx.page_entry((f + off_pages) as u64) == Some(
        entry_set_value(0, (f * FRAME_PAGE_SIZE) as u64, fl),
    )
}

/// A successful mapping of page `p` keeps every translation that existed.
pub proof fn lemma_map_keeps(c0: ActivePagingContext, c1: ActivePagingContext, c2: ActivePagingContext, p: u64)
    requires
        forall|q: u64| c0.translation(q) is Some ==> #[trigger] c1.translation(q) == c0.translation(q),
        c1.translation(p) is Some ==> c2.translation(p) == c1.translation(p),
        forall|q: u64| page_key(q) != page_key(p) ==> #[trigger] c2.translation(q) == c1.translation(q),
    ensures
        forall|q: u64| c0.translation(q) is Some ==> #[trigger] c2.translation(q) == c0.translation(q),
        forall|q: u64| c1.translation(q) is Some ==> #[trigger] c2.translation(q) == c1.translation(q),
{
    assert forall|q: u64| c1.translation(q) is Some implies #[trigger] c2.translation(q) == c1.translation(q) by {
        if page_key(q) == page_key(p) {
            lemma_same_key_same_translation(c1, q, p);
            lemma_same_key_same_translation(c2, q, p);
        }
    }
    assert forall|q: u64| c0.translation(q) is Some implies #[trigger] c2.translation(q) == c0.translation(q) by {
        assert(c1.translation(q) == c0.translation(q));
    }
}

/// A successful mapping of page `p` keeps the P1 entry of every page that was mapped.
proof fn lemma_map_keeps_entries(c0: ActivePagingContext, c1: ActivePagingContext, c2: ActivePagingContext, p: u64)
    requires
        forall|q: u64| c0.translation(q) is Some ==> #[trigger] c1.translation(q) == c0.translation(q),
        forall|q: u64| c0.translation(q) is Some ==> #[trigger] c1.page_entry(q) == c0.page_entry(q),
        forall|q: u64| page_key(q) != page_key(p) && #[trigger] c1.page_entry(q) is Some ==> c2.page_entry(q) == c1.page_entry(q),
        c1.translation(p) is Some ==> c2.page_entry(p) == c1.page_entry(p),
    ensures
        forall|q: u64| c0.translation(q) is Some ==> #[trigger] c2.page_entry(q) == c0.page_entry(q),
{
    assert forall|q: u64| c0.translation(q) is Some implies #[trigger] c2.page_entry(q) == c0.page_entry(q) by {
        assert(c1.translation(q) is Some);
        lemma_translation_is_entry_frame(c1, q);
        if page_key(q) == page_key(p) {
            lemma_same_key_same_translation(c1, q, p);
            lemma_same_key_same_translation(c2, q, p);
        }
    }
}

/// The number of frames from the one holding `start` to the one holding `end`: none when `end` comes first.
pub open spec fn frame_count(start: int, end: int) -> nat {
    if end / 4096 >= start / 4096 {
        (end / 4096 - start / 4096 + 1) as nat
    } else {
        0
    }
}

/// Maps every frame from the one at `start` to the one holding `end` to the page `off` bytes further,
/// with `flags`, stopping at the first failure. Translations that exist stay.
fn map_range<A: FrameAllocator>(
    ctx: &mut ActivePagingContext,
    fa: &mut A,
    start: PhysicalAddress,
    end: PhysicalAddress,
    off: u64,
    flags: EntryFlags,
) -> (r: Result<(), MemoryError>)
    requires
        old(ctx).wf(),
        old(fa).ready(),
        start % FRAME_PAGE_SIZE == 0,
        off % FRAME_PAGE_SIZE == 0,
        end + off < u64::MAX,
        end < 0x10_0000_0000_0000,
    ensures
        final(ctx).wf(),
        final(fa).ready(),
        old(fa).in_use().subset_of(final(fa).in_use()),
        forall|q: u64| old(ctx).translation(q) is Some ==> #[trigger] final(ctx).translation(q) == old(ctx).translation(q),
        r is Ok ==> range_mapped(*final(ctx), start / FRAME_PAGE_SIZE, end / FRAME_PAGE_SIZE, off / FRAME_PAGE_SIZE)
            && (old(ctx).counts_exact() ==> final(ctx).counts_exact()),
        r is Ok ==> range_flags(*final(ctx), start / FRAME_PAGE_SIZE, end / FRAME_PAGE_SIZE, off / FRAME_PAGE_SIZE, flags@ | EntryFlags::PRESENT),
        forall|q: u64| old(ctx).translation(q) is Some ==> #[trigger] final(ctx).page_entry(q) == old(ctx).page_entry(q),
        r is Err ==> r == Err::<(), MemoryError>(MemoryError::MappingUsedTableEntry) || r == Err::<(), MemoryError>(
            MemoryError::NotEnoughPhyMemory,
        ) || r == Err::<(), MemoryError>(MemoryError::PageInvalidVirtualAddress),
        pages_free(*old(ctx), start / 4096 + off / 4096, end / 4096 + off / 4096) && old(fa).can_hand_out(
            3 * frame_count(start as int, end as int),
        ) ==> r is Ok,
        r is Ok ==> forall|k: nat| old(fa).can_hand_out(k + 3 * frame_count(start as int, end as int)) ==> #[trigger] final(fa).can_hand_out(k),
        forall|q: u64| end / 4096 + off / 4096 < q && q - (start / 4096 + off / 4096) < 0x10_0000_0000
            ==> #[trigger] final(ctx).translation(q) == old(ctx).translation(q),
{
    let mut addr = start;
    let ghost first = start / FRAME_PAGE_SIZE;
    let ghost offp = off / FRAME_PAGE_SIZE;
    let ghost c0 = *ctx;
    let ghost ok = pages_free(c0, start / 4096 + off / 4096, end / 4096 + off / 4096) && old(fa).can_hand_out(
        3 * frame_count(start as int, end as int),
    );
    while addr <= end
        invariant
            ctx.wf(),
            fa.ready(),
            old(fa).in_use().subset_of(fa.in_use()),
            start % FRAME_PAGE_SIZE == 0,
            off % FRAME_PAGE_SIZE == 0,
            end + off < u64::MAX,
            end < 0x10_0000_0000_0000,
            addr % FRAME_PAGE_SIZE == 0,
            start <= addr,
            addr <= end + FRAME_PAGE_SIZE || addr == start,
            first == start / FRAME_PAGE_SIZE,
            offp == off / FRAME_PAGE_SIZE,
            c0 == *old(ctx),
            forall|q: u64| c0.translation(q) is Some ==> #[trigger] ctx.translation(q) == c0.translation(q),
            forall|f: u64| first <= f < addr / FRAME_PAGE_SIZE ==> #[trigger] mapped_at(*ctx, f, offp),
            forall|f: u64| first <= f < addr / FRAME_PAGE_SIZE ==> #[trigger] ctx.page_entry((f + offp) as u64) == Some(
                entry_set_value(0, (f * FRAME_PAGE_SIZE) as u64, flags@ | EntryFlags::PRESENT),
            ),
            forall|q: u64| c0.translation(q) is Some ==> #[trigger] ctx.page_entry(q) == c0.page_entry(q),
            c0.counts_exact() ==> ctx.counts_exact(),
            ok == (pages_free(c0, start / 4096 + off / 4096, end / 4096 + off / 4096) && old(fa).can_hand_out(
                3 * frame_count(start as int, end as int),
            )),
            ok ==> pages_free(*ctx, addr / 4096 + off / 4096, end / 4096 + off / 4096),
            ok ==> fa.can_hand_out(3 * frame_count(addr as int, end as int)),
            forall|k: nat| old(fa).can_hand_out((k + 3 * ((addr - start) / 4096)) as nat) ==> #[trigger] fa.can_hand_out(k),
            forall|q: u64| end / 4096 + off / 4096 < q && q - (start / 4096 + off / 4096) < 0x10_0000_0000
                ==> #[trigger] ctx.translation(q) == c0.translation(q),
        decreases end + FRAME_PAGE_SIZE - addr,
    {
        let ghost c1 = *ctx;
        let ghost f = addr / FRAME_PAGE_SIZE;
        proof {
            assert(f * 4096 == addr && (addr + 4096) / 4096 == f + 1) by {
                vstd::arithmetic::div_mod::lemma_fundamental_div_mod(addr as int, 4096);
                vstd::arithmetic::div_mod::lemma_div_multiples_vanish_fancy(f + 1, 0, 4096);
            }
            assert(frame_count(addr as int, end as int) == 1 + frame_count(addr + 4096, end as int)) by {
                vstd::arithmetic::div_mod::lemma_div_is_ordered(addr as int, end as int, 4096);
            }
            assert((addr + off) / 4096 == f + offp) by {
                vstd::arithmetic::div_mod::lemma_fundamental_div_mod(addr as int, 4096);
                vstd::arithmetic::div_mod::lemma_fundamental_div_mod(off as int, 4096);
                vstd::arithmetic::div_mod::lemma_div_multiples_vanish_fancy((addr / 4096 + off / 4096) as int, 0, 4096);
            }
            assert(f <= end / 4096) by {
                vstd::arithmetic::div_mod::lemma_div_is_ordered(addr as int, end as int, 4096);
            }
            assert((addr - start) / 4096 + 1 == (addr + 4096 - start) / 4096) by {
                vstd::arithmetic::div_mod::lemma_fundamental_div_mod(start as int, 4096);
                vstd::arithmetic::div_mod::lemma_div_multiples_vanish_fancy(f - start / 4096, 0, 4096);
                vstd::arithmetic::div_mod::lemma_div_multiples_vanish_fancy(f + 1 - start / 4096, 0, 4096);
            }
            if ok {
                assert(ctx.translation((f + offp) as u64) is None && is_canonical(((f + offp) * 4096) as u64));
                lemma_can_hand_out_le(&*fa, 3 * frame_count(addr as int, end as int), 3);
                assert(((f + offp) * 4096) as u64 == addr + off) by {
                    vstd::arithmetic::div_mod::lemma_fundamental_div_mod(off as int, 4096);
                }
            }
        }
        let frame = Frame::from_phy_addr(addr);
        let page = Page::from_virt_addr(addr + off)?;
        proof {
            assert(frame_fits(frame@));
        }
        let res = ctx.map_page_to_frame(page, frame, flags, fa);
        proof {
            lemma_map_keeps(c0, c1, *ctx, page@);
            lemma_map_keeps_entries(c0, c1, *ctx, page@);
            assert forall|q: u64| end / 4096 + off / 4096 < q && q - (start / 4096 + off / 4096) < 0x10_0000_0000
                implies #[trigger] ctx.translation(q) == c0.translation(q) by {
                lemma_near_pages_keys(page@, q);
                assert(c1.translation(q) == c0.translation(q));
            }
        }
        if res.is_err() {
            return res;
        }
        proof {
            assert forall|k: nat| old(fa).can_hand_out((k + 3 * ((addr + 4096 - start) / 4096)) as nat) implies #[trigger] fa.can_hand_out(k) by {
                assert(k + 3 * ((addr + 4096 - start) / 4096) == (k + 3) + 3 * ((addr - start) / 4096));
            }
            if ok {
                assert(fa.can_hand_out(3 * frame_count(addr + 4096, end as int))) by {
                    assert(3 * frame_count(addr + 4096, end as int) + 3 == 3 * frame_count(addr as int, end as int));
                }
                assert forall|q: u64| (addr + 4096) / 4096 + off / 4096 <= q <= end / 4096 + off / 4096 implies #[trigger] ctx.translation(q)
                    is None && is_canonical((q * FRAME_PAGE_SIZE) as u64) by {
                    assert(c1.translation(q) is None);
                    lemma_near_pages_keys(page@, q);
                }
            }
        }
        proof {
            assert forall|g: u64| first <= g < (addr + FRAME_PAGE_SIZE) as int / FRAME_PAGE_SIZE as int implies #[trigger] ctx.page_entry(
                (g + offp) as u64,
            ) == Some(entry_set_value(0, (g * FRAME_PAGE_SIZE) as u64, flags@ | EntryFlags::PRESENT)) by {
                if g < f {
                    assert(mapped_at(c1, g, offp));
                    assert(c1.translation((g + offp) as u64) is Some);
                    lemma_translation_is_entry_frame(c1, (g + offp) as u64);
                    if page_key((g + offp) as u64) == page_key(page@) {
                        lemma_same_key_same_translation(c1, (g + offp) as u64, page@);
                    }
                } else {
                    assert(g == f);
                }
            }
            assert forall|g: u64| first <= g < (addr + FRAME_PAGE_SIZE) as int / FRAME_PAGE_SIZE as int implies #[trigger] mapped_at(*ctx, g, offp) by {
                if g < f {
                    assert(mapped_at(c1, g, offp));
                    assert(c1.translation((g + offp) as u64) is Some);
                } else {
                    assert(g == f);
                }
            }
        }
        addr = addr + FRAME_PAGE_SIZE;
    }
    proof {
        assert((addr - start) / 4096 == frame_count(start as int, end as int)) by {
            vstd::arithmetic::div_mod::lemma_fundamental_div_mod(addr as int, 4096);
            vstd::arithmetic::div_mod::lemma_fundamental_div_mod(start as int, 4096);
            vstd::arithmetic::div_mod::lemma_fundamental_div_mod(end as int, 4096);
            vstd::arithmetic::div_mod::lemma_div_multiples_vanish_fancy(addr as int / 4096 - start as int / 4096, 0, 4096);
        }
        assert forall|k: nat| old(fa).can_hand_out(k + 3 * frame_count(start as int, end as int)) implies #[trigger] fa.can_hand_out(k) by {
            assert(k + 3 * frame_count(start as int, end as int) == k + 3 * ((addr - start) / 4096));
        }
    }
    Ok(())
}

/// The frames of the ELF section `sec` (load address, size, raw flags) are mapped [K_LH_HH_OFFSET]
/// bytes up, each by a P1 entry with the section's page flags and the present flag.
pub open spec fn section_remapped(ctx: ActivePagingContext, sec: (u64, u64, u64)) -> bool {
    let first = sec.0 / FRAME_PAGE_SIZE;
    let last = ((align_up_spec(sec.0 + sec.1 - 1, FRAME_PAGE_SIZE as int) - 1) / FRAME_PAGE_SIZE as int) as u64;
    &&& range_mapped(ctx, first, last, K_LH_HH_OFFSET / FRAME_PAGE_SIZE)
    &&& range_flags(ctx, first, last, K_LH_HH_OFFSET / FRAME_PAGE_SIZE, elf_entry_flags(sec.2) | EntryFlags::PRESENT)
}

/// The frames `[first, last]` are mapped `off_pages` pages up with flags `fl`.
pub open spec fn range_remapped(ctx: ActivePagingContext, first: u64, last: u64, off_pages: u64, fl: u64) -> bool {
    range_mapped(ctx, first, last, off_pages) && range_flags(ctx, first, last, off_pages, fl)
}

/// Mappings that exist stay, with their entries.
proof fn lemma_remapped_kept(c1: ActivePagingContext, c2: ActivePagingContext, first: u64, last: u64, off_pages: u64, fl: u64)
    requires
        range_remapped(c1, first, last, off_pages, fl),
        forall|q: u64| c1.translation(q) is Some ==> #[trigger] c2.translation(q) == c1.translation(q),
        forall|q: u64| c1.translation(q) is Some ==> #[trigger] c2.page_entry(q) == c1.page_entry(q),
    ensures
        range_remapped(c2, first, last, off_pages, fl),
{
    assert forall|f: u64| first <= f <= last implies #[trigger] mapped_at(c2, f, off_pages) by {
        assert(mapped_at(c1, f, off_pages));
    }
    assert forall|f: u64| first <= f <= last implies #[trigger] c2.page_entry((f + off_pages) as u64) == Some(
        entry_set_value(0, (f * FRAME_PAGE_SIZE) as u64, fl),
    ) by {
        assert(mapped_at(c1, f, off_pages));
        assert(c1.page_entry((f + off_pages) as u64) == Some(entry_set_value(0, (f * FRAME_PAGE_SIZE) as u64, fl)));
    }
}

/// Some allocated section does not start at a frame boundary.
pub open spec fn some_misaligned(secs: Seq<ElfSection>) -> bool {
    exists|k: int| 0 <= k < secs.len() && is_allocated((#[trigger] secs[k])@.2) && secs[k]@.0 % FRAME_PAGE_SIZE != 0
}

/// The first page that ELF section `sec` (load address, size, raw flags) is remapped to.
pub open spec fn section_first_page(sec: (u64, u64, u64)) -> int {
    sec.0 / 4096 + K_LH_HH_OFFSET / 4096
}

/// The last page that ELF section `sec` is remapped to: the one of the frame holding its last byte.
pub open spec fn section_last_page(sec: (u64, u64, u64)) -> int {
    (align_up_spec(sec.0 + sec.1 - 1, FRAME_PAGE_SIZE as int) - 1) / 4096 + K_LH_HH_OFFSET / 4096
}

/// The number of frames that ELF section `sec` has remapped: none unless it is allocated.
pub open spec fn section_frames(sec: (u64, u64, u64)) -> nat {
    if is_allocated(sec.2) {
        frame_count(sec.0 as int, align_up_spec(sec.0 + sec.1 - 1, FRAME_PAGE_SIZE as int) - 1)
    } else {
        0
    }
}

/// The number of frames that the sections from the `i`-th on have remapped.
pub open spec fn sections_frames_from(secs: Seq<ElfSection>, i: int) -> nat
    decreases secs.len() - i,
{
    if i < 0 || i >= secs.len() {
        0
    } else {
        section_frames(secs[i]@) + sections_frames_from(secs, i + 1)
    }
}

/// How far up the multiboot2 information is remapped: right after the kernel's end.
pub open spec fn mb_remap_offset(kernel: Kernel) -> int {
    align_up_spec(kernel.k_end_v() + K_LH_HH_OFFSET - kernel.mb_start_v(), FRAME_PAGE_SIZE as int)
}

/// How far up the frame allocator's memory `range` is remapped: right after the multiboot2 information.
pub open spec fn fa_remap_offset(kernel: Kernel, range: ProhibitedMemoryRange) -> int {
    align_up_spec(kernel.k_end_v() + K_LH_HH_OFFSET + (kernel.mb_end_v() - kernel.mb_start_v()), FRAME_PAGE_SIZE as int)
        - range.start()
}

/// The first and last pages that the multiboot2 information is remapped to.
pub open spec fn mb_pages(kernel: Kernel) -> (int, int) {
    (
        kernel.mb_start_v() / 4096 + mb_remap_offset(kernel) / 4096,
        kernel.mb_end_v() / 4096 + mb_remap_offset(kernel) / 4096,
    )
}

/// The first and last pages that the frame allocator's memory `range` is remapped to.
pub open spec fn fa_pages(kernel: Kernel, range: ProhibitedMemoryRange) -> (int, int) {
    (
        range.start() / 4096 + fa_remap_offset(kernel, range) / 4096,
        range.end() / 4096 + fa_remap_offset(kernel, range) / 4096,
    )
}

/// The last page that a remapping writes.
pub open spec fn remap_top(kernel: Kernel, fa_range: Option<ProhibitedMemoryRange>) -> int {
    match fa_range {
        Some(range) => if fa_pages(kernel, range).1 > mb_pages(kernel).1 {
            fa_pages(kernel, range).1
        } else {
            mb_pages(kernel).1
        },
        None => mb_pages(kernel).1,
    }
}

/// The number of frames that a remapping maps.
pub open spec fn remap_frames(kernel: Kernel, secs: Seq<ElfSection>, fa_range: Option<ProhibitedMemoryRange>) -> nat {
    sections_frames_from(secs, 0) + frame_count(kernel.mb_start_v() as int, kernel.mb_end_v() as int) + match fa_range {
        Some(range) => frame_count(range.start() as int, range.end() as int),
        None => 0,
    }
}

/// There is room in `ctx` for remapping: every allocated section starts at a frame boundary; the pages
/// that the allocated sections, the multiboot2 information and the frame allocator's memory go to are
/// unmapped, with canonical addresses; these pieces come one after another in that order, none sharing
/// a page with another; and they all lie within 2^36 pages of one another.
pub open spec fn remap_room(
    kernel: Kernel,
    secs: Seq<ElfSection>,
    fa_range: Option<ProhibitedMemoryRange>,
    ctx: ActivePagingContext,
) -> bool {
    let top = remap_top(kernel, fa_range);
    let mb = mb_pages(kernel);
    &&& !some_misaligned(secs)
    &&& forall|k: int| 0 <= k < secs.len() && is_allocated((#[trigger] secs[k])@.2) ==> pages_free(
        ctx,
        section_first_page(secs[k]@),
        section_last_page(secs[k]@),
    ) && section_last_page(secs[k]@) < mb.0 && top - section_first_page(secs[k]@) < 0x10_0000_0000
    &&& forall|j: int, k: int| 0 <= j < k < secs.len() && is_allocated((#[trigger] secs[j])@.2) && is_allocated(
        (#[trigger] secs[k])@.2,
    ) ==> section_last_page(secs[j]@) < section_first_page(secs[k]@)
    &&& pages_free(ctx, mb.0, mb.1)
    &&& top - mb.0 < 0x10_0000_0000
    &&& fa_range matches Some(range) ==> mb.1 < fa_pages(kernel, range).0 && pages_free(
        ctx,
        fa_pages(kernel, range).0,
        fa_pages(kernel, range).1,
    )
}

/// Pages past a mapped window and near it keep their translation, so those that were free stay free.
proof fn lemma_free_kept(c1: ActivePagingContext, c2: ActivePagingContext, lo: int, hi: int, a: int, b: int)
    requires
        pages_free(c1, a, b),
        hi < a,
        b - lo < 0x10_0000_0000,
        forall|q: u64| hi < q && q - lo < 0x10_0000_0000 ==> #[trigger] c2.translation(q) == c1.translation(q),
    ensures
        pages_free(c2, a, b),
{
    assert forall|q: u64| a <= q <= b implies #[trigger] c2.translation(q) is None && is_canonical((q * FRAME_PAGE_SIZE) as u64) by {
        assert(c1.translation(q) is None && is_canonical((q * FRAME_PAGE_SIZE) as u64));
    }
}

/// Remaps (to the higher half) the kernel, the multiboot2 info and the memory of the frame allocator
/// into `new_ctx`, the paging context that the kernel switches to afterwards: the allocated ELF sections
/// go [K_LH_HH_OFFSET] bytes up, the multiboot2 information right after the kernel, and the frame
/// allocator's memory from [Kernel::fa_hh_start] on.
///
/// It succeeds whenever [remap_room] holds of `new_ctx` and `fa` can hand out three frames (for page
/// tables) per frame to map.
pub fn remap<A: FrameAllocator>(
    kernel: &Kernel,
    elf_sections: Option<&[ElfSection]>,
    fa_range: Option<ProhibitedMemoryRange>,
    new_ctx: &mut ActivePagingContext,
    fa: &mut A,
) -> (r: Result<(), MemoryError>)
    requires
        kernel.is_initialized(),
        old(new_ctx).wf(),
        old(fa).ready(),
        elf_sections matches Some(secs) ==> forall|k: int| 0 <= k < secs@.len() && is_allocated((#[trigger] secs@[k])@.2)
            ==> secs@[k]@.0 + secs@[k]@.1 >= 1 && align_up_spec(secs@[k]@.0 + secs@[k]@.1 - 1, FRAME_PAGE_SIZE as int) >= 1
            && align_up_spec(secs@[k]@.0 + secs@[k]@.1 - 1, FRAME_PAGE_SIZE as int)
            + K_LH_HH_OFFSET < u64::MAX && align_up_spec(secs@[k]@.0 + secs@[k]@.1 - 1, FRAME_PAGE_SIZE as int) <= 0x10_0000_0000_0000,
        kernel.mb_start_v() % FRAME_PAGE_SIZE == 0,
        kernel.k_end_v() + K_LH_HH_OFFSET <= u64::MAX,
        kernel.mb_start_v() <= kernel.k_end_v() + K_LH_HH_OFFSET,
        kernel.k_end_v() + K_LH_HH_OFFSET - kernel.mb_start_v() + FRAME_PAGE_SIZE <= u64::MAX,
        kernel.mb_end_v() + align_up_spec(kernel.k_end_v() + K_LH_HH_OFFSET - kernel.mb_start_v(), FRAME_PAGE_SIZE as int) < u64::MAX,
        kernel.mb_end_v() < 0x10_0000_0000_0000,
        kernel.mb_start_v() <= kernel.mb_end_v(),
        kernel.k_end_v() + K_LH_HH_OFFSET + (kernel.mb_end_v() - kernel.mb_start_v()) + FRAME_PAGE_SIZE <= u64::MAX,
        fa_range matches Some(range) ==> {
            let hh = align_up_spec(kernel.k_end_v() + K_LH_HH_OFFSET + (kernel.mb_end_v() - kernel.mb_start_v()), FRAME_PAGE_SIZE as int);
            &&& range.start() <= hh
            &&& range.end() + (hh - range.start()) < u64::MAX
            &&& range.end() < 0x10_0000_0000_0000
        },
    ensures
        final(new_ctx).wf(),
        final(fa).ready(),
        elf_sections is None ==> r == Err::<(), MemoryError>(MemoryError::ElfSymbolsMbTagDoesNotExist),
        r is Ok ==> (elf_sections matches Some(secs) && (forall|k: int| 0 <= k < secs@.len() && is_allocated((#[trigger] secs@[k])@.2)
            ==> section_remapped(*final(new_ctx), secs@[k]@)) && range_remapped(
                *final(new_ctx),
                kernel.mb_start_v() / FRAME_PAGE_SIZE,
                kernel.mb_end_v() / FRAME_PAGE_SIZE,
                (align_up_spec(kernel.k_end_v() + K_LH_HH_OFFSET - kernel.mb_start_v(), FRAME_PAGE_SIZE as int) / FRAME_PAGE_SIZE as int) as u64,
                EntryFlags::PRESENT | EntryFlags::NO_EXECUTE,
            ) && (fa_range matches Some(range) ==> range_remapped(
                *final(new_ctx),
                range.start() / FRAME_PAGE_SIZE,
                range.end() / FRAME_PAGE_SIZE,
                ((align_up_spec(kernel.k_end_v() + K_LH_HH_OFFSET + (kernel.mb_end_v() - kernel.mb_start_v()), FRAME_PAGE_SIZE as int)
                    - range.start()) / FRAME_PAGE_SIZE as int) as u64,
                EntryFlags::PRESENT | EntryFlags::WRITABLE | EntryFlags::NO_EXECUTE,
            ))),
        r == Err::<(), MemoryError>(MemoryError::MisalignedKernelSection) ==> (elf_sections matches Some(secs) && some_misaligned(secs@)),
        r is Ok ==> (elf_sections matches Some(secs) && !some_misaligned(secs@)),
        r is Err ==> r == Err::<(), MemoryError>(MemoryError::ElfSymbolsMbTagDoesNotExist) || r == Err::<(), MemoryError>(
            MemoryError::MisalignedKernelSection,
        ) || r == Err::<(), MemoryError>(MemoryError::MappingUsedTableEntry) || r == Err::<(), MemoryError>(
            MemoryError::NotEnoughPhyMemory,
        ) || r == Err::<(), MemoryError>(MemoryError::PageInvalidVirtualAddress),
        forall|q: u64| old(new_ctx).translation(q) is Some ==> #[trigger] final(new_ctx).translation(q) == old(new_ctx).translation(q),
        elf_sections matches Some(secs) && remap_room(*kernel, secs@, fa_range, *old(new_ctx)) && old(fa).can_hand_out(
            3 * remap_frames(*kernel, secs@, fa_range),
        ) ==> r is Ok,
{
    // get the kernel elf sections
    let sections = match elf_sections {
        Some(s) => s,
        None => {
            return Err(MemoryError::ElfSymbolsMbTagDoesNotExist);
        },
    };
    proof {
        lemma_frame_page_size_power_of_two();
    }
    let ghost c0 = *new_ctx;
    let ghost ok = remap_room(*kernel, sections@, fa_range, c0) && old(fa).can_hand_out(
        3 * remap_frames(*kernel, sections@, fa_range),
    );
    let ghost rest: nat = frame_count(kernel.mb_start_v() as int, kernel.mb_end_v() as int) + match fa_range {
        Some(range) => frame_count(range.start() as int, range.end() as int),
        None => 0,
    };
    // remap the kernel (just the allocated sections)
    let mut i: usize = 0;
    while i < sections.len()
        invariant
            i <= sections@.len(),
            elf_sections == Some(sections),
            new_ctx.wf(),
            fa.ready(),
            is_power_of_two(FRAME_PAGE_SIZE),
            old(fa).in_use().subset_of(fa.in_use()),
            forall|k: int| 0 <= k < sections@.len() && is_allocated((#[trigger] sections@[k])@.2)
                ==> sections@[k]@.0 + sections@[k]@.1 >= 1 && align_up_spec(sections@[k]@.0 + sections@[k]@.1 - 1, FRAME_PAGE_SIZE as int) >= 1
                && align_up_spec(sections@[k]@.0 + sections@[k]@.1 - 1, FRAME_PAGE_SIZE as int)
                + K_LH_HH_OFFSET < u64::MAX && align_up_spec(sections@[k]@.0 + sections@[k]@.1 - 1, FRAME_PAGE_SIZE as int)
                <= 0x10_0000_0000_0000,
            forall|q: u64| c0.translation(q) is Some ==> #[trigger] new_ctx.translation(q) == c0.translation(q),
            c0 == *old(new_ctx),
            forall|k: int| 0 <= k < i && is_allocated((#[trigger] sections@[k])@.2) ==> sections@[k]@.0 % FRAME_PAGE_SIZE == 0,
            forall|k: int| 0 <= k < i && is_allocated((#[trigger] sections@[k])@.2) ==> section_remapped(*new_ctx, sections@[k]@),
            kernel.mb_start_v() <= kernel.mb_end_v(),
            ok == (remap_room(*kernel, sections@, fa_range, c0) && old(fa).can_hand_out(3 * remap_frames(*kernel, sections@, fa_range))),
            rest == frame_count(kernel.mb_start_v() as int, kernel.mb_end_v() as int) + match fa_range {
                Some(range) => frame_count(range.start() as int, range.end() as int),
                None => 0,
            },
            ok ==> forall|k: int| i <= k < sections@.len() && is_allocated((#[trigger] sections@[k])@.2) ==> pages_free(
                *new_ctx,
                section_first_page(sections@[k]@),
                section_last_page(sections@[k]@),
            ),
            ok ==> pages_free(*new_ctx, mb_pages(*kernel).0, mb_pages(*kernel).1),
            ok ==> (fa_range matches Some(range) ==> pages_free(*new_ctx, fa_pages(*kernel, range).0, fa_pages(*kernel, range).1)),
            ok ==> fa.can_hand_out(3 * (sections_frames_from(sections@, i as int) + rest)),
        decreases sections@.len() - i,
    {
        let elf_section = sections[i];
        if elf_section.flags().contains(ElfSectionFlags::ELF_SECTION_ALLOCATED) {
            assert(is_allocated(sections@[i as int]@.2));
            // get section addr range (from first byte of first frame to last byte of last frame)
            let start_addr = elf_section.load_addr();
            let end_addr = start_addr + elf_section.size() - 1;
            let end_addr = end_addr.align_up(FRAME_PAGE_SIZE) - 1;

            // make sure that kernel elf sections are FRAME_PAGE_SIZE aligned
            if start_addr % FRAME_PAGE_SIZE != 0 {
                assert(sections@[i as int]@.0 % FRAME_PAGE_SIZE != 0);
                assert(some_misaligned(sections@));
                return Err(MemoryError::MisalignedKernelSection);
            }

            // map every section to the kernel higher half (defined in the linker script)
            let flags = EntryFlags::from_elf_section_flags(elf_section.flags());
            let ghost c1 = *new_ctx;
            let ghost fa1 = *fa;
            let ghost sec = sections@[i as int]@;
            assert(K_LH_HH_OFFSET % FRAME_PAGE_SIZE == 0);
            proof {
                assert(sections_frames_from(sections@, i as int) == section_frames(sec) + sections_frames_from(sections@, i + 1));
                if ok {
                    lemma_can_hand_out_le(&*fa, 3 * (sections_frames_from(sections@, i as int) + rest), 3 * section_frames(sec));
                }
            }
            map_range(new_ctx, fa, start_addr, end_addr, K_LH_HH_OFFSET, flags)?;
            proof {
                if ok {
                    let first = section_first_page(sec);
                    let last = section_last_page(sec);
                    assert(fa.can_hand_out(3 * (sections_frames_from(sections@, i + 1) + rest))) by {
                        assert(3 * (sections_frames_from(sections@, i as int) + rest) == 3 * (sections_frames_from(sections@, i + 1) + rest)
                            + 3 * section_frames(sec));
                        assert(fa1.can_hand_out((3 * (sections_frames_from(sections@, i + 1) + rest) + 3 * section_frames(sec)) as nat));
                    }
                    assert forall|k: int| i + 1 <= k < sections@.len() && is_allocated((#[trigger] sections@[k])@.2) implies pages_free(
                        *new_ctx,
                        section_first_page(sections@[k]@),
                        section_last_page(sections@[k]@),
                    ) by {
                        assert(section_last_page(sec) < section_first_page(sections@[k]@));
                        lemma_free_kept(c1, *new_ctx, first, last, section_first_page(sections@[k]@), section_last_page(sections@[k]@));
                    }
                    lemma_free_kept(c1, *new_ctx, first, last, mb_pages(*kernel).0, mb_pages(*kernel).1);
                    if let Some(range) = fa_range {
                        lemma_free_kept(c1, *new_ctx, first, last, fa_pages(*kernel, range).0, fa_pages(*kernel, range).1);
                    }
                }
            }
            proof {
                assert forall|k: int| 0 <= k < i && is_allocated((#[trigger] sections@[k])@.2) implies section_remapped(
                    *new_ctx,
                    sections@[k]@,
                ) by {
                    let sec = sections@[k]@;
                    let first = sec.0 / FRAME_PAGE_SIZE;
                    let last = ((align_up_spec(sec.0 + sec.1 - 1, FRAME_PAGE_SIZE as int) - 1) / FRAME_PAGE_SIZE as int) as u64;
                    assert(section_remapped(c1, sec));
                    lemma_remapped_kept(c1, *new_ctx, first, last, K_LH_HH_OFFSET / FRAME_PAGE_SIZE, elf_entry_flags(sec.2) | EntryFlags::PRESENT);
                }
                assert(section_remapped(*new_ctx, sections@[i as int]@));
            }
        }
        proof {
            if !is_allocated(sections@[i as int]@.2) {
                assert(sections_frames_from(sections@, i as int) == sections_frames_from(sections@, i + 1));
            }
        }
        i = i + 1;
    }

    // higher half map the multiboot2 info
    let mb2_lh_hh_offset = kernel.mb_lh_hh_offset();
    let ghost c2 = *new_ctx;
    proof {
        assert(mb2_lh_hh_offset % FRAME_PAGE_SIZE == 0) by {
            let x = kernel.k_end_v() + K_LH_HH_OFFSET - kernel.mb_start_v();
            if x % 4096 != 0 {
                vstd::arithmetic::div_mod::lemma_fundamental_div_mod(x, 4096);
                vstd::arithmetic::div_mod::lemma_mod_multiples_basic(x / 4096 + 1, 4096);
                assert(x - x % 4096 + 4096 == 4096 * (x / 4096 + 1));
            }
        }
    }
    let mb_flags = EntryFlags::from_bits_truncate(EntryFlags::PRESENT | EntryFlags::NO_EXECUTE);
    proof {
        crate::memory::pages::page_table::lemma_flag_bits();
        assert(mb_flags@ | EntryFlags::PRESENT == EntryFlags::PRESENT | EntryFlags::NO_EXECUTE);
    }
    let ghost fa2 = *fa;
    proof {
        assert(sections_frames_from(sections@, i as int) == 0);
        if ok {
            lemma_can_hand_out_le(&*fa, 3 * rest, 3 * frame_count(kernel.mb_start_v() as int, kernel.mb_end_v() as int));
        }
    }
    map_range(new_ctx, fa, kernel.mb_start(), kernel.mb_end(), mb2_lh_hh_offset, mb_flags)?;
    let ghost c3 = *new_ctx;
    proof {
        if ok {
            if let Some(range) = fa_range {
                let n = frame_count(range.start() as int, range.end() as int);
                assert(fa2.can_hand_out((3 * n + 3 * frame_count(kernel.mb_start_v() as int, kernel.mb_end_v() as int)) as nat));
                assert(fa.can_hand_out(3 * n));
                lemma_free_kept(c2, *new_ctx, mb_pages(*kernel).0, mb_pages(*kernel).1, fa_pages(*kernel, range).0, fa_pages(*kernel, range).1);
            }
        }
    }
    proof {
        assert forall|k: int| 0 <= k < sections@.len() && is_allocated((#[trigger] sections@[k])@.2) implies section_remapped(
            *new_ctx,
            sections@[k]@,
        ) by {
            let sec = sections@[k]@;
            let first = sec.0 / FRAME_PAGE_SIZE;
            let last = ((align_up_spec(sec.0 + sec.1 - 1, FRAME_PAGE_SIZE as int) - 1) / FRAME_PAGE_SIZE as int) as u64;
            assert(section_remapped(c2, sec));
            lemma_remapped_kept(c2, *new_ctx, first, last, K_LH_HH_OFFSET / FRAME_PAGE_SIZE, elf_entry_flags(sec.2) | EntryFlags::PRESENT);
        }
    }

    // higher half map the frame allocator prohibited physical memory region
    let range = match fa_range {
        None => {
            return Ok(());
        },
        Some(range) => range,
    };
    let fa_hh_start = kernel.fa_hh_start();
    let fa_lh_hh_offset = fa_hh_start - range.start_addr();
    proof {
        assert(fa_hh_start % FRAME_PAGE_SIZE == 0) by {
            let x = kernel.k_end_v() + K_LH_HH_OFFSET + (kernel.mb_end_v() - kernel.mb_start_v());
            if x % 4096 != 0 {
                vstd::arithmetic::div_mod::lemma_fundamental_div_mod(x, 4096);
                vstd::arithmetic::div_mod::lemma_mod_multiples_basic(x / 4096 + 1, 4096);
                assert(x - x % 4096 + 4096 == 4096 * (x / 4096 + 1));
            }
        }
        use_type_invariant(range);
        assert(fa_lh_hh_offset % FRAME_PAGE_SIZE == 0) by {
            vstd::arithmetic::div_mod::lemma_fundamental_div_mod(fa_hh_start as int, 4096);
            vstd::arithmetic::div_mod::lemma_fundamental_div_mod(range.start() as int, 4096);
            vstd::arithmetic::div_mod::lemma_mod_multiples_basic(fa_hh_start as int / 4096 - range.start() as int / 4096, 4096);
            assert(fa_lh_hh_offset == 4096 * (fa_hh_start as int / 4096 - range.start() as int / 4096));
        }
    }
    let fa_flags = EntryFlags::from_bits_truncate(EntryFlags::PRESENT | EntryFlags::WRITABLE | EntryFlags::NO_EXECUTE);
    proof {
        crate::memory::pages::page_table::lemma_flag_bits();
        assert(fa_flags@ | EntryFlags::PRESENT == EntryFlags::PRESENT | EntryFlags::WRITABLE | EntryFlags::NO_EXECUTE);
    }
    map_range(new_ctx, fa, range.start_addr(), range.end_addr(), fa_lh_hh_offset, fa_flags)?;
    proof {
        assert forall|k: int| 0 <= k < sections@.len() && is_allocated((#[trigger] sections@[k])@.2) implies section_remapped(
            *new_ctx,
            sections@[k]@,
        ) by {
            let sec = sections@[k]@;
            let first = sec.0 / FRAME_PAGE_SIZE;
            let last = ((align_up_spec(sec.0 + sec.1 - 1, FRAME_PAGE_SIZE as int) - 1) / FRAME_PAGE_SIZE as int) as u64;
            assert(section_remapped(c3, sec));
            lemma_remapped_kept(c3, *new_ctx, first, last, K_LH_HH_OFFSET / FRAME_PAGE_SIZE, elf_entry_flags(sec.2) | EntryFlags::PRESENT);
        }
        lemma_remapped_kept(
            c3,
            *new_ctx,
            kernel.mb_start_v() / FRAME_PAGE_SIZE,
            kernel.mb_end_v() / FRAME_PAGE_SIZE,
            mb2_lh_hh_offset / FRAME_PAGE_SIZE,
            EntryFlags::PRESENT | EntryFlags::NO_EXECUTE,
        );
    }
    Ok(())
}

} // verus!
