//! The main kernel structure: where the kernel and the multiboot2 information lie in physical memory,
//! the memory that must be left untouched, and the checks on their placement.
use vstd::prelude::*;
use crate::memory::{align_down_spec, align_up_spec, is_power_of_two, lemma_frame_page_size_power_of_two, AddrOps, MemoryError, PhysicalAddress, ProhibitedMemoryRange, VirtualAddress, FRAME_PAGE_SIZE};
use crate::multiboot2::elf_symbols::{is_allocated, ElfSection, ElfSectionFlags};
use crate::multiboot2::memory_map::{aligned_base_spec, aligned_length_spec, entry_in_range, entry_type_of, MemoryMapEntries, MemoryMapEntryType};

verus! {

/// The lower half kernel start address.
pub const K_LH_START: u64 = 0x1000000;
/// The higher half kernel start address.
pub const K_HH_START: u64 = 0xFFFF800000000000;
/// The last valid higher half address: 0xFFFF800000000000 + ((2**48 // 2 - (2**30 * 512)) - 1).
pub const HH_END: u64 = 0xFFFFFF7FFFFFFFFF;
/// The offset between the higher half kernel start and the lower half kernel start.
pub const K_LH_HH_OFFSET: u64 = 0xFFFF7FFFFF000000;
/// The bytes from address 0 on that are identity mapped when the Rust code first starts: each table maps
/// 4096 bytes, has 512 entries and there are 512 P1 page tables.
pub const ORIGINALLY_IDENTITY_MAPPED: u64 = 0x4000_0000;
/// The bytes from [K_HH_START] on that are mapped to [K_LH_START] when the Rust code first starts.
pub const ORIGINALLY_HIGHER_HALF_MAPPED: u64 = 0x100_0000;
/// How many memory ranges the kernel keeps untouched.
pub const PROHIBITED_MEM_RANGES_LEN: usize = 3;

/// The BLAKE3 hash of `data` (32 bytes).
pub uninterp spec fn blake3_hash(data: Seq<u8>) -> Seq<u8>;

/// The 32 byte BLAKE3 hash of `data`, as `blake3::hash` computes it. Trusted, not proved: the contract
/// only claims that the bytes returned are [blake3_hash] of the bytes given, so that equal inputs give
/// equal hashes; nothing is stated of how the hash is computed or of collisions.
#[verifier::external_body]
fn hash_bytes(data: &[u8]) -> (r: [u8; 32])
    ensures
        r@ == blake3_hash(data@),
{
    *blake3::hash(data).as_bytes()
}

/// The lowest load address of the allocated sections, if there is one.
pub open spec fn alloc_min_start(secs: Seq<(u64, u64, u64)>) -> Option<int>
    decreases secs.len(),
{
    if secs.len() == 0 {
        None
    } else {
        let rest = alloc_min_start(secs.drop_last());
        let s = secs.last();
        if is_allocated(s.2) {
            match rest {
                Some(m) => Some(if s.0 < m { s.0 as int } else { m }),
                None => Some(s.0 as int),
            }
        } else {
            rest
        }
    }
}

/// The highest end (load address plus size) of the allocated sections, if there is one.
pub open spec fn alloc_max_end(secs: Seq<(u64, u64, u64)>) -> Option<int>
    decreases secs.len(),
{
    if secs.len() == 0 {
        None
    } else {
        let rest = alloc_max_end(secs.drop_last());
        let s = secs.last();
        if is_allocated(s.2) {
            match rest {
                Some(m) => Some(if s.0 + s.1 > m { s.0 + s.1 } else { m }),
                None => Some(s.0 + s.1),
            }
        } else {
            rest
        }
    }
}

/// The highest allocated end is one of the sections' ends, so it keeps their bound.
proof fn lemma_alloc_max_end_bound(secs: Seq<(u64, u64, u64)>)
    requires
        forall|k: int| 0 <= k < secs.len() ==> (#[trigger] secs[k]).0 + secs[k].1 + FRAME_PAGE_SIZE <= u64::MAX,
    ensures
        alloc_max_end(secs) matches Some(m) ==> m + FRAME_PAGE_SIZE <= u64::MAX,
    decreases secs.len(),
{
    if secs.len() > 0 {
        let d = secs.drop_last();
        assert forall|k: int| 0 <= k < d.len() implies (#[trigger] d[k]).0 + d[k].1 + FRAME_PAGE_SIZE <= u64::MAX by {
            assert(d[k] == secs[k]);
        }
        lemma_alloc_max_end_bound(d);
        assert(secs.last() == secs[secs.len() - 1]);
    }
}

/// The sections as values.
pub open spec fn sections_view(secs: Seq<ElfSection>) -> Seq<(u64, u64, u64)> {
    secs.map_values(|s: ElfSection| s@)
}

/// The kernel's first byte: the lowest allocated load address, frame aligned down.
pub open spec fn k_start_spec(secs: Seq<(u64, u64, u64)>) -> int {
    align_down_spec(alloc_min_start(secs)->0, FRAME_PAGE_SIZE as int)
}

/// The kernel's last byte: the highest allocated end, frame aligned up, minus one.
pub open spec fn k_end_spec(secs: Seq<(u64, u64, u64)>) -> int {
    align_up_spec(alloc_max_end(secs)->0, FRAME_PAGE_SIZE as int) - 1
}

/// The first byte of the frames of the multiboot2 information at `addr`.
pub open spec fn mb_start_spec(addr: u64) -> int {
    align_down_spec(addr as int, FRAME_PAGE_SIZE as int)
}

/// The last byte of the frames of the multiboot2 information at `addr`, `size` bytes long.
pub open spec fn mb_end_spec(addr: u64, size: u32) -> int {
    align_up_spec(addr + size - 1, FRAME_PAGE_SIZE as int) - 1
}

/// The kernel ELF sections describe a kernel whose ends can be computed: some section is allocated,
/// and every end stays far enough below the top of the address space.
pub open spec fn sections_ok(secs: Seq<(u64, u64, u64)>) -> bool {
    &&& alloc_min_start(secs) is Some
    &&& alloc_max_end(secs) is Some
    &&& forall|k: int| 0 <= k < secs.len() ==> (#[trigger] secs[k]).0 + secs[k].1 + FRAME_PAGE_SIZE <= u64::MAX
    &&& alloc_max_end(secs)->0 > 0
}

/// The multiboot2 information at `addr`, `size` bytes long, has frame ends that can be computed.
pub open spec fn mb_placement_ok(addr: u64, size: u32) -> bool {
    &&& size > 0
    &&& addr + size - 1 + FRAME_PAGE_SIZE <= u64::MAX
    &&& addr + size - 1 > 0
    &&& mb_start_spec(addr) <= mb_end_spec(addr, size)
}

/// Range `(s, e)` and the area `[a, b]` share an address.
pub open spec fn overlaps(s: int, e: int, a: int, b: int) -> bool {
    a <= e && s <= b
}

/// Some prohibited range overlaps an area of the memory map that is not available RAM.
pub open spec fn bad_placement(ranges: Seq<(u64, u64)>, entries: Seq<crate::multiboot2::memory_map::MemoryMapEntry>) -> bool {
    exists|r: int, k: int|
        0 <= r < ranges.len() && 0 <= k < entries.len() && entry_type_of(entries[k].entry_type) != MemoryMapEntryType::AvailableRAM
            && #[trigger] overlaps(
            ranges[r].0 as int,
            ranges[r].1 as int,
            aligned_base_spec(entries[k], FRAME_PAGE_SIZE),
            aligned_base_spec(entries[k], FRAME_PAGE_SIZE) + aligned_length_spec(entries[k], FRAME_PAGE_SIZE) - 1,
        )
}

/// The main kernel structure.
pub struct Kernel {
    // kernel (physical addrs)
    k_start: PhysicalAddress,
    k_end: PhysicalAddress,
    // these are physical addrs
    prohibited_memory_ranges: [ProhibitedMemoryRange; PROHIBITED_MEM_RANGES_LEN],
    // multiboot2 (physical addrs)
    mb_start: PhysicalAddress,
    mb_end: PhysicalAddress,
    initialized: bool,
    // used to check for memory corruption on the multiboot2 memory during the lower to higher half remapping
    mb2_hash: [u8; 32],
}

impl Kernel {
    /// [Kernel::init] has run.
    pub closed spec fn is_initialized(&self) -> bool {
        self.initialized
    }

    /// Kernel start address in physical memory.
    pub closed spec fn k_start_v(&self) -> u64 {
        self.k_start
    }

    /// Kernel end address in physical memory.
    pub closed spec fn k_end_v(&self) -> u64 {
        self.k_end
    }

    /// Multiboot2 info start address in physical memory.
    pub closed spec fn mb_start_v(&self) -> u64 {
        self.mb_start
    }

    /// Multiboot2 info end address in physical memory.
    pub closed spec fn mb_end_v(&self) -> u64 {
        self.mb_end
    }

    /// The prohibited ranges as (first address, last address).
    pub closed spec fn ranges_v(&self) -> Seq<(u64, u64)> {
        self.prohibited_memory_ranges@.map_values(|r: ProhibitedMemoryRange| (r.start(), r.end()))
    }

    /// The hash of the multiboot2 memory taken at initialization.
    pub closed spec fn mb2_hash_v(&self) -> Seq<u8> {
        self.mb2_hash@
    }

    /// A kernel structure that is not initialized yet.
    pub fn new() -> (r: Kernel)
        ensures
            !r.is_initialized(),
            r.k_start_v() == 0,
            r.k_end_v() == 0,
            r.mb_start_v() == 0,
            r.mb_end_v() == 0,
            r.ranges_v() == Seq::new(PROHIBITED_MEM_RANGES_LEN as nat, |i: int| (0u64, 0u64)),
            r.mb2_hash_v() == Seq::new(32, |i: int| 0u8),
    {
        Kernel {
            k_start: 0,
            k_end: 0,
            prohibited_memory_ranges: [ProhibitedMemoryRange::empty(), ProhibitedMemoryRange::empty(), ProhibitedMemoryRange::empty()],
            mb_start: 0,
            mb_end: 0,
            initialized: false,
            mb2_hash: [0u8; 32],
        }
    }

    /// The lowest load address and the highest end of the allocated sections.
    fn kernel_bounds(elf_sections: &[ElfSection]) -> (r: (u64, u64))
        requires
            sections_ok(sections_view(elf_sections@)),
        ensures
            r.0 == alloc_min_start(sections_view(elf_sections@))->0,
            r.1 == alloc_max_end(sections_view(elf_sections@))->0,
    {
        let ghost secs = sections_view(elf_sections@);
        let mut min: Option<u64> = None;
        let mut max: Option<u64> = None;
        let mut i: usize = 0;
        while i < elf_sections.len()
            invariant
                i <= elf_sections@.len(),
                secs == sections_view(elf_sections@),
                sections_ok(secs),
                min == (match alloc_min_start(secs.take(i as int)) {
                    Some(m) => Some(m as u64),
                    None => None::<u64>,
                }),
                max == (match alloc_max_end(secs.take(i as int)) {
                    Some(m) => Some(m as u64),
                    None => None::<u64>,
                }),
                alloc_min_start(secs.take(i as int)) matches Some(m) ==> 0 <= m <= u64::MAX,
                alloc_max_end(secs.take(i as int)) matches Some(m) ==> 0 <= m <= u64::MAX,
                alloc_min_start(secs.take(i as int)) is Some <==> alloc_max_end(secs.take(i as int)) is Some,
            decreases elf_sections@.len() - i,
        {
            let s = elf_sections[i];
            let flags = s.flags();
            assert(secs.take(i + 1).drop_last() =~= secs.take(i as int));
            assert(secs[i as int] == s@);
            assert(s@.0 + s@.1 + FRAME_PAGE_SIZE <= u64::MAX);
            if flags.contains(ElfSectionFlags::ELF_SECTION_ALLOCATED) {
                let start = s.load_addr();
                let end = s.load_addr() + s.size();
                min = match min {
                    Some(m) => Some(if start < m { start } else { m }),
                    None => Some(start),
                };
                max = match max {
                    Some(m) => Some(if end > m { end } else { m }),
                    None => Some(end),
                };
            }
            i = i + 1;
        }
        assert(secs.take(elf_sections@.len() as int) =~= secs);
        (min.unwrap(), max.unwrap())
    }

    /// The first and last byte of the frames that hold the multiboot2 information at `mb_addr`,
    /// `mb_size` bytes long; `None` when those ends cannot be computed (see [mb_placement_ok]).
    pub fn mb_frames(mb_addr: PhysicalAddress, mb_size: u32) -> (r: Option<(PhysicalAddress, PhysicalAddress)>)
        ensures
            r is Some <==> mb_placement_ok(mb_addr, mb_size),
            r matches Some(b) ==> b.0 == mb_start_spec(mb_addr) && b.1 == mb_end_spec(mb_addr, mb_size),
    {
        proof {
            lemma_frame_page_size_power_of_two();
        }
        if mb_size == 0 || mb_addr as u128 + mb_size as u128 - 1 + FRAME_PAGE_SIZE as u128 > u64::MAX as u128 {
            return None;
        }
        let last = mb_addr + mb_size as u64 - 1;
        if last == 0 {
            return None;
        }
        let start = mb_addr.align_down(FRAME_PAGE_SIZE);
        let up = last.align_up(FRAME_PAGE_SIZE);
        if up == 0 || start > up - 1 {
            return None;
        }
        Some((start, up - 1))
    }

    /// Builds the kernel structure: the kernel's frames from its allocated ELF sections, the multiboot2
    /// information's frames from its address and size, the prohibited ranges (the first frame, to catch
    /// NULL dereferences, the kernel and the multiboot2 information), and the hash of `mb_region`, the
    /// bytes of the multiboot2 information's frames.
    pub fn init(&mut self, elf_sections: &[ElfSection], mb_addr: PhysicalAddress, mb_size: u32, mb_region: &[u8])
        requires
            !old(self).is_initialized(),
            sections_ok(sections_view(elf_sections@)),
            mb_placement_ok(mb_addr, mb_size),
            mb_region@.len() == mb_end_spec(mb_addr, mb_size) - mb_start_spec(mb_addr) + 1,
        ensures
            final(self).is_initialized(),
            final(self).k_start_v() == k_start_spec(sections_view(elf_sections@)),
            final(self).k_end_v() == k_end_spec(sections_view(elf_sections@)),
            final(self).mb_start_v() == mb_start_spec(mb_addr),
            final(self).mb_end_v() == mb_end_spec(mb_addr, mb_size),
            final(self).ranges_v() == seq![
                (0u64, (FRAME_PAGE_SIZE - 1) as u64),
                (final(self).k_start_v(), final(self).k_end_v()),
                (final(self).mb_start_v(), final(self).mb_end_v()),
            ],
            final(self).mb2_hash_v() == blake3_hash(mb_region@),
    {
        proof {
            lemma_frame_page_size_power_of_two();
        }
        let (min_start, max_end) = Kernel::kernel_bounds(elf_sections);
        proof {
            lemma_alloc_max_end_bound(sections_view(elf_sections@));
        }
        // get the kernel start and end addrs
        let k_start = min_start.align_down(FRAME_PAGE_SIZE);
        let k_end = max_end.align_up(FRAME_PAGE_SIZE) - 1;

        // get the mb2 info start and end addrs
        let mb_start = mb_addr.align_down(FRAME_PAGE_SIZE);
        let mb_end = mb_addr + mb_size as u64 - 1;
        let mb_end = mb_end.align_up(FRAME_PAGE_SIZE) - 1;

        proof {
            assert(align_up_spec(max_end as int, 4096) % 4096 == 0) by {
                vstd::arithmetic::div_mod::lemma_mod_self_0(4096);
                if (max_end as int) % 4096 != 0 {
                    vstd::arithmetic::div_mod::lemma_fundamental_div_mod(max_end as int, 4096);
                    vstd::arithmetic::div_mod::lemma_mod_multiples_basic((max_end as int) / 4096 + 1, 4096);
                    assert(max_end - (max_end as int) % 4096 + 4096 == 4096 * ((max_end as int) / 4096 + 1));
                }
            }
            let me = (mb_addr + mb_size - 1) as int;
            assert(align_up_spec(me, 4096) % 4096 == 0) by {
                if me % 4096 != 0 {
                    vstd::arithmetic::div_mod::lemma_fundamental_div_mod(me, 4096);
                    vstd::arithmetic::div_mod::lemma_mod_multiples_basic(me / 4096 + 1, 4096);
                    assert(me - me % 4096 + 4096 == 4096 * (me / 4096 + 1));
                }
            }
            assert((min_start as int - (min_start as int) % 4096) % 4096 == 0) by {
                vstd::arithmetic::div_mod::lemma_fundamental_div_mod(min_start as int, 4096);
                vstd::arithmetic::div_mod::lemma_mod_multiples_basic((min_start as int) / 4096, 4096);
            }
            assert((mb_addr as int - (mb_addr as int) % 4096) % 4096 == 0) by {
                vstd::arithmetic::div_mod::lemma_fundamental_div_mod(mb_addr as int, 4096);
                vstd::arithmetic::div_mod::lemma_mod_multiples_basic((mb_addr as int) / 4096, 4096);
            }
        }
        let hash = hash_bytes(mb_region);

        self.k_start = k_start;
        self.k_end = k_end;
        // to avoid problems with NULL ptrs and detect NULL derefs, then the kernel and the multiboot2 information
        self.prohibited_memory_ranges = [
            ProhibitedMemoryRange::new(0, FRAME_PAGE_SIZE - 1),
            ProhibitedMemoryRange::new(k_start, k_end),
            ProhibitedMemoryRange::new(mb_start, mb_end),
        ];
        self.mb_start = mb_start;
        self.mb_end = mb_end;
        self.initialized = true;
        self.mb2_hash = hash;
        assert(self.ranges_v() =~= seq![(0u64, (FRAME_PAGE_SIZE - 1) as u64), (k_start, k_end), (mb_start, mb_end)]);
    }

    /// All the memory ranges that **must be left untouched** meaning that these regions cannot be used
    /// for allocations in the physical (frame allocator) memory space.
    pub fn prohibited_memory_ranges(&self) -> (r: [ProhibitedMemoryRange; PROHIBITED_MEM_RANGES_LEN])
        requires
            self.is_initialized(),
        ensures
            r@.map_values(|x: ProhibitedMemoryRange| (x.start(), x.end())) == self.ranges_v(),
    {
        self.prohibited_memory_ranges
    }

    /// Kernel start address in physical memory.
    pub fn k_start(&self) -> (r: PhysicalAddress)
        requires
            self.is_initialized(),
        ensures
            r == self.k_start_v(),
    {
        self.k_start
    }

    /// Kernel end address in physical memory.
    pub fn k_end(&self) -> (r: PhysicalAddress)
        requires
            self.is_initialized(),
        ensures
            r == self.k_end_v(),
    {
        self.k_end
    }

    /// Multiboot2 info start address in physical memory.
    pub fn mb_start(&self) -> (r: PhysicalAddress)
        requires
            self.is_initialized(),
        ensures
            r == self.mb_start_v(),
    {
        self.mb_start
    }

    /// Multiboot2 info end address in physical memory.
    pub fn mb_end(&self) -> (r: PhysicalAddress)
        requires
            self.is_initialized(),
        ensures
            r == self.mb_end_v(),
    {
        self.mb_end
    }

    /// Get the offset between the higher half multiboot2 mapping and the lower half multiboot2 mapping:
    /// the multiboot2 information goes right after the kernel in the higher half.
    pub fn mb_lh_hh_offset(&self) -> (r: u64)
        requires
            self.is_initialized(),
            self.k_end_v() + K_LH_HH_OFFSET <= u64::MAX,
            self.mb_start_v() <= self.k_end_v() + K_LH_HH_OFFSET,
            self.k_end_v() + K_LH_HH_OFFSET - self.mb_start_v() + FRAME_PAGE_SIZE <= u64::MAX,
        ensures
            r == align_up_spec(self.k_end_v() + K_LH_HH_OFFSET - self.mb_start_v(), FRAME_PAGE_SIZE as int),
    {
        proof {
            lemma_frame_page_size_power_of_two();
        }
        (self.k_end + K_LH_HH_OFFSET - self.mb_start).align_up(FRAME_PAGE_SIZE)
    }

    /// Get the start address for the frame allocator to use with higher half mappings: right after the
    /// kernel and the multiboot2 information in the higher half.
    pub fn fa_hh_start(&self) -> (r: VirtualAddress)
        requires
            self.is_initialized(),
            self.mb_start_v() <= self.mb_end_v(),
            self.k_end_v() + K_LH_HH_OFFSET + (self.mb_end_v() - self.mb_start_v()) + FRAME_PAGE_SIZE <= u64::MAX,
        ensures
            r == align_up_spec(self.k_end_v() + K_LH_HH_OFFSET + (self.mb_end_v() - self.mb_start_v()), FRAME_PAGE_SIZE as int),
    {
        proof {
            lemma_frame_page_size_power_of_two();
        }
        (self.k_end + K_LH_HH_OFFSET + (self.mb_end - self.mb_start)).align_up(FRAME_PAGE_SIZE)
    }

    /// Get the lower half kernel start address.
    pub fn k_lh_start() -> (r: VirtualAddress)
        ensures
            r == K_LH_START,
    {
        K_LH_START
    }

    /// Get the higher half kernel start address.
    pub fn k_hh_start() -> (r: VirtualAddress)
        ensures
            r == K_HH_START,
    {
        K_HH_START
    }

    /// Get the last valid higher half address.
    pub fn hh_end() -> (r: VirtualAddress)
        ensures
            r == HH_END,
    {
        HH_END
    }

    /// Get the offset between the higher half kernel start and the lower half kernel start.
    pub fn k_lh_hh_offset() -> (r: u64)
        ensures
            r == K_HH_START - K_LH_START,
            r == K_LH_HH_OFFSET,
    {
        K_HH_START - K_LH_START
    }

    /// The number of sequential bytes starting at address 0x0 that are identity mapped when the Rust code
    /// first starts; a multiple of [FRAME_PAGE_SIZE].
    pub fn originally_identity_mapped() -> (r: u64)
        ensures
            r == 4096 * 512 * 512,
            r % FRAME_PAGE_SIZE == 0,
    {
        ORIGINALLY_IDENTITY_MAPPED
    }

    /// The number of sequential bytes starting at [K_HH_START] that are mapped to [K_LH_START] when the
    /// Rust code first starts; a multiple of [FRAME_PAGE_SIZE].
    pub fn originally_higher_half_mapped() -> (r: u64)
        ensures
            r == 4096 * 512 * 8,
            r % FRAME_PAGE_SIZE == 0,
    {
        ORIGINALLY_HIGHER_HALF_MAPPED
    }

    /// How many memory ranges the kernel keeps untouched.
    pub fn prohibited_mem_ranges_len() -> (r: usize)
        ensures
            r == 3,
    {
        PROHIBITED_MEM_RANGES_LEN
    }

    /// Checks that no prohibited range lies in an area of `mem_map_entries` that is not available RAM
    /// (else `BadMemoryPlacement`), that the kernel fits in the higher half mapping made at boot (else
    /// `BadTemporaryHigherHalfMapping`), and that the linker script's addresses (`k_hh_start`,
    /// `k_lh_start`, `k_lh_hh_offset`) are the expected ones (else `BadLinkerConfig`); without a memory
    /// map, `MemoryMapMbTagDoesNotExist`.
    pub fn initial_checks(
        &self,
        mem_map_entries: Option<&MemoryMapEntries>,
        k_hh_start: VirtualAddress,
        k_lh_start: VirtualAddress,
        k_lh_hh_offset: u64,
    ) -> (r: Result<(), MemoryError>)
        requires
            self.is_initialized(),
            self.k_start_v() <= self.k_end_v(),
            mem_map_entries matches Some(es) ==> forall|k: int| 0 <= k < es.0@.len() ==> {
                &&& entry_in_range(#[trigger] es.0@[k], FRAME_PAGE_SIZE)
                &&& aligned_base_spec(es.0@[k], FRAME_PAGE_SIZE) + aligned_length_spec(es.0@[k], FRAME_PAGE_SIZE) >= 1
            },
        ensures
            mem_map_entries is None ==> r == Err::<(), MemoryError>(MemoryError::MemoryMapMbTagDoesNotExist),
            mem_map_entries matches Some(es) ==> r == (if bad_placement(self.ranges_v(), es.0@) {
                Err::<(), MemoryError>(MemoryError::BadMemoryPlacement)
            } else if self.k_end_v() - self.k_start_v() > ORIGINALLY_HIGHER_HALF_MAPPED {
                Err(MemoryError::BadTemporaryHigherHalfMapping)
            } else if k_hh_start != K_HH_START || k_lh_start != K_LH_START || k_lh_hh_offset != K_LH_HH_OFFSET {
                Err(MemoryError::BadLinkerConfig)
            } else {
                Ok(())
            }),
    {
        let entries = match mem_map_entries {
            Some(es) => es,
            None => {
                return Err(MemoryError::MemoryMapMbTagDoesNotExist);
            },
        };
        proof {
            lemma_frame_page_size_power_of_two();
        }
        let ghost ranges = self.ranges_v();
        // check `prohibited_memory_ranges()` placements
        let mut r: usize = 0;
        while r < PROHIBITED_MEM_RANGES_LEN
            invariant
                r <= PROHIBITED_MEM_RANGES_LEN,
                mem_map_entries == Some(entries),
                is_power_of_two(FRAME_PAGE_SIZE),
                ranges == self.ranges_v(),
                ranges.len() == PROHIBITED_MEM_RANGES_LEN,
                self.prohibited_memory_ranges@.len() == PROHIBITED_MEM_RANGES_LEN,
                forall|k: int| 0 <= k < entries.0@.len() ==> {
                    &&& entry_in_range(#[trigger] entries.0@[k], FRAME_PAGE_SIZE)
                    &&& aligned_base_spec(entries.0@[k], FRAME_PAGE_SIZE) + aligned_length_spec(entries.0@[k], FRAME_PAGE_SIZE) >= 1
                },
                forall|a: int, k: int| 0 <= a < r && 0 <= k < entries.0@.len() && entry_type_of(entries.0@[k].entry_type)
                    != MemoryMapEntryType::AvailableRAM ==> !#[trigger] overlaps(
                    ranges[a].0 as int,
                    ranges[a].1 as int,
                    aligned_base_spec(entries.0@[k], FRAME_PAGE_SIZE),
                    aligned_base_spec(entries.0@[k], FRAME_PAGE_SIZE) + aligned_length_spec(entries.0@[k], FRAME_PAGE_SIZE) - 1,
                ),
            decreases PROHIBITED_MEM_RANGES_LEN - r,
        {
            let range = self.prohibited_memory_ranges[r];
            assert(ranges[r as int] == (range.start(), range.end()));
            let mut k: usize = 0;
            while k < entries.0.len()
                invariant
                    r < PROHIBITED_MEM_RANGES_LEN,
                    mem_map_entries == Some(entries),
                    is_power_of_two(FRAME_PAGE_SIZE),
                    k <= entries.0@.len(),
                    ranges == self.ranges_v(),
                    ranges.len() == PROHIBITED_MEM_RANGES_LEN,
                    ranges[r as int] == (range.start(), range.end()),
                    forall|k: int| 0 <= k < entries.0@.len() ==> {
                        &&& entry_in_range(#[trigger] entries.0@[k], FRAME_PAGE_SIZE)
                        &&& aligned_base_spec(entries.0@[k], FRAME_PAGE_SIZE) + aligned_length_spec(entries.0@[k], FRAME_PAGE_SIZE) >= 1
                    },
                    forall|j: int| 0 <= j < k && entry_type_of(entries.0@[j].entry_type) != MemoryMapEntryType::AvailableRAM
                        ==> !#[trigger] overlaps(
                        ranges[r as int].0 as int,
                        ranges[r as int].1 as int,
                        aligned_base_spec(entries.0@[j], FRAME_PAGE_SIZE),
                        aligned_base_spec(entries.0@[j], FRAME_PAGE_SIZE) + aligned_length_spec(entries.0@[j], FRAME_PAGE_SIZE) - 1,
                    ),
                decreases entries.0@.len() - k,
            {
                let area = &entries.0[k];
                assert(entry_in_range(*area, FRAME_PAGE_SIZE));
                if area.entry_type() != MemoryMapEntryType::AvailableRAM {
                    let area_start = area.aligned_base_addr(FRAME_PAGE_SIZE);
                    let area_end = area_start + area.aligned_length(FRAME_PAGE_SIZE) - 1;
                    if area_start <= range.end_addr() && range.start_addr() <= area_end {
                        assert(overlaps(
                            ranges[r as int].0 as int,
                            ranges[r as int].1 as int,
                            aligned_base_spec(entries.0@[k as int], FRAME_PAGE_SIZE),
                            aligned_base_spec(entries.0@[k as int], FRAME_PAGE_SIZE) + aligned_length_spec(entries.0@[k as int], FRAME_PAGE_SIZE) - 1,
                        ));
                        return Err(MemoryError::BadMemoryPlacement);
                    }
                }
                k = k + 1;
            }
            r = r + 1;
        }
        proof {
            if bad_placement(ranges, entries.0@) {
                let (a, k) = choose|a: int, k: int| 0 <= a < ranges.len() && 0 <= k < entries.0@.len()
                    && entry_type_of(entries.0@[k].entry_type) != MemoryMapEntryType::AvailableRAM && #[trigger] overlaps(
                        ranges[a].0 as int,
                        ranges[a].1 as int,
                        aligned_base_spec(entries.0@[k], FRAME_PAGE_SIZE),
                        aligned_base_spec(entries.0@[k], FRAME_PAGE_SIZE) + aligned_length_spec(entries.0@[k], FRAME_PAGE_SIZE) - 1,
                    );
                assert(false);
            }
        }
        // check initial higher half mapping placement
        if (self.k_end - self.k_start) > ORIGINALLY_HIGHER_HALF_MAPPED {
            return Err(MemoryError::BadTemporaryHigherHalfMapping);
        }
        // check linker configs and addresses
        if k_hh_start != K_HH_START || k_lh_start != K_LH_START || k_lh_hh_offset != K_LH_HH_OFFSET {
            return Err(MemoryError::BadLinkerConfig);
        }
        Ok(())
    }

    /// The multiboot2 memory `mb_region` still has the hash taken at initialization: it was not
    /// corrupted by the lower to higher half remapping.
    pub fn mb2_intact(&self, mb_region: &[u8]) -> (r: bool)
        requires
            self.is_initialized(),
        ensures
            r == (blake3_hash(mb_region@) == self.mb2_hash_v()),
    {
        let m = hash_bytes(mb_region);
        let mut i: usize = 0;
        while i < 32
            invariant
                i <= 32,
                m@ == blake3_hash(mb_region@),
                self.is_initialized(),
                m@.len() == 32,
                self.mb2_hash@.len() == 32,
                forall|j: int| 0 <= j < i ==> m@[j] == self.mb2_hash@[j],
            decreases 32 - i,
        {
            if m[i] != self.mb2_hash[i] {
                assert(m@[i as int] != self.mb2_hash@[i as int]);
                assert(m@ != self.mb2_hash@);
                return false;
            }
            i = i + 1;
        }
        assert(m@ =~= self.mb2_hash@);
        true
    }
}

/// Checking, after the remapping, the very bytes that were hashed at initialization finds them intact.
pub proof fn law_unchanged_mb2_is_intact(k: Kernel, region_at_init: Seq<u8>, region_now: Seq<u8>)
    requires
        k.mb2_hash_v() == blake3_hash(region_at_init),
        region_now == region_at_init,
    ensures
        blake3_hash(region_now) == k.mb2_hash_v(),
{
}

} // verus!
