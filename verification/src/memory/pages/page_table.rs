//! Page tables and their entries.
use vstd::prelude::*;
use core::marker::PhantomData;
use crate::memory::{PhysicalAddress, VirtualAddress, FRAME_PAGE_SIZE};
use crate::memory::frames::Frame;
use crate::multiboot2::elf_symbols::ElfSectionFlags;

verus! {

/// 512 = 2^9 = log2(PAGE_SIZE), PAGE_SIZE = 4096
pub const ENTRY_COUNT: usize = 512;

/// The base addr used to modify the Page Tables themselves using recursive mapping:
/// 0o177777_777_777_777_777_0000 = 0xfffffffffffff000
///
/// This are the addresses that must be used to access the page tables themselves.
/// +-------+-------------------------------+-------------------------------------+
/// | Table | Address                       | Indexes                             |
/// | P4    | 0o177777_777_777_777_777_0000 | –                                   |
/// | P3    | 0o177777_777_777_777_XXX_0000 | XXX is the P4 index                 |
/// | P2    | 0o177777_777_777_XXX_YYY_0000 | like above, and YYY is the P3 index |
/// | P1    | 0o177777_777_XXX_YYY_ZZZ_0000 | like above, and ZZZ is the P2 index |
/// +-------+-------------------------------+-------------------------------------+
/// As it can be seen, the addresses may be calculated with the following formula:
/// next_table_address = (table_address << 9) | (index << 12)
pub const P4: VirtualAddress = 0o177777_777_777_777_777_0000;

/// The physical address bits of an entry (bits 12 to 51).
pub const ENTRY_ADDR_MASK: u64 = 0x000fffff_fffff000;

/// The flags that an entry can hold.
#[derive(Clone, Copy)]
pub struct EntryFlags(u64);

impl View for EntryFlags {
    type V = u64;

    closed spec fn view(&self) -> u64 {
        self.0
    }
}

impl EntryFlags {
    /// the page is currently in memory
    pub const PRESENT: u64 = 0x1;
    /// it’s allowed to write to this page
    pub const WRITABLE: u64 = 0x2;
    /// if not set, only kernel mode code can access this page
    pub const USER_ACCESSIBLE: u64 = 0x4;
    /// writes go directly to memory
    pub const WRITE_THROUGH: u64 = 0x8;
    /// no cache is used for this page
    pub const NO_CACHE: u64 = 0x10;
    /// the CPU sets this bit when this page is used
    pub const ACCESSED: u64 = 0x20;
    /// the CPU sets this bit when a write to this page occurs
    pub const DIRTY: u64 = 0x40;
    /// must be 0 in P1 and P4, creates a 1GiB page in P3, creates a 2MiB page in P2
    pub const HUGE_PAGE: u64 = 0x80;
    /// page isn’t flushed from caches on address space switch (PGE bit of CR4 register must be set)
    pub const GLOBAL: u64 = 0x100;
    /// forbid executing code on this page (the NXE bit in the EFER register must be set)
    pub const NO_EXECUTE: u64 = 0x8000_0000_0000_0000;
    /// All the flags together.
    pub const ALL: u64 = 0x8000_0000_0000_01ff;

    #[verifier::type_invariant]
    spec fn inv(self) -> bool {
        self.0 & !Self::ALL == 0
    }

    /// The flags of `bits`, dropping the bits that are not flags.
    pub fn from_bits_truncate(bits: u64) -> (r: EntryFlags)
        ensures
            r@ == bits & EntryFlags::ALL,
    {
        assert((bits & Self::ALL) & !Self::ALL == 0) by {
            crate::memory::pages::page_table::lemma_flag_bits();
        }
        EntryFlags(bits & Self::ALL)
    }

    /// No flag set.
    pub fn empty() -> (r: EntryFlags)
        ensures
            r@ == 0,
    {
        assert(0u64 & !Self::ALL == 0) by {
            crate::memory::pages::page_table::lemma_flag_bits();
        }
        EntryFlags(0)
    }

    /// The raw bits.
    pub fn bits(&self) -> (r: u64)
        ensures
            r == self@,
            r & !EntryFlags::ALL == 0,
    {
        proof {
            use_type_invariant(self);
        }
        self.0
    }

    /// All the flags of `other` are set in `self`.
    pub fn contains(&self, other: EntryFlags) -> (r: bool)
        ensures
            r == (self@ & other@ == other@),
    {
        (self.0 & other.0) == other.0
    }

    /// The flags of both.
    pub fn union(self, other: EntryFlags) -> (r: EntryFlags)
        ensures
            r@ == self@ | other@,
    {
        proof {
            use_type_invariant(self);
            use_type_invariant(other);
        }
        let (a, b) = (self.0, other.0);
        assert((a | b) & !Self::ALL == 0) by {
            lemma_flag_bits();
        }
        EntryFlags(a | b)
    }

    /// Adds the flags of `other`.
    pub fn insert(&mut self, other: EntryFlags)
        ensures
            final(self)@ == old(self)@ | other@,
    {
        *self = self.union(other);
    }

    /// The page flags that an ELF section asks for: writable sections are writable,
    /// allocated ones present, and sections that are not executable are no-execute.
    pub fn from_elf_section_flags(section_flags: ElfSectionFlags) -> (r: EntryFlags)
        ensures
            r@ == elf_entry_flags(section_flags@),
            r@ == (if section_flags@ & ElfSectionFlags::ELF_SECTION_WRITABLE == ElfSectionFlags::ELF_SECTION_WRITABLE {
                EntryFlags::WRITABLE
            } else {
                0
            }) | (if section_flags@ & ElfSectionFlags::ELF_SECTION_ALLOCATED == ElfSectionFlags::ELF_SECTION_ALLOCATED {
                EntryFlags::PRESENT
            } else {
                0
            }) | (if section_flags@ & ElfSectionFlags::ELF_SECTION_EXECUTABLE == ElfSectionFlags::ELF_SECTION_EXECUTABLE {
                0
            } else {
                EntryFlags::NO_EXECUTE
            }),
    {
        let mut flags = EntryFlags::empty();
        let w = section_flags.contains(ElfSectionFlags::ELF_SECTION_WRITABLE);
        let a = section_flags.contains(ElfSectionFlags::ELF_SECTION_ALLOCATED);
        let x = section_flags.contains(ElfSectionFlags::ELF_SECTION_EXECUTABLE);
        if w {
            flags.insert(EntryFlags::from_bits_truncate(EntryFlags::WRITABLE));
        }
        if a {
            flags.insert(EntryFlags::from_bits_truncate(EntryFlags::PRESENT));
        }
        if !x {
            flags.insert(EntryFlags::from_bits_truncate(EntryFlags::NO_EXECUTE));
        }
        proof {
            let s = section_flags@;
            assert(0u64 | 2u64 == 2u64) by {
            crate::memory::pages::page_table::lemma_flag_bits();
        }
            assert(0u64 | 1u64 == 1u64) by {
            crate::memory::pages::page_table::lemma_flag_bits();
        }
            assert(0u64 | 0x8000_0000_0000_0000u64 == 0x8000_0000_0000_0000u64) by {
            crate::memory::pages::page_table::lemma_flag_bits();
        }
            assert(2u64 | 1u64 == 3u64) by {
            crate::memory::pages::page_table::lemma_flag_bits();
        }
            assert(2u64 | 0x8000_0000_0000_0000u64 == 0x8000_0000_0000_0002u64) by {
            crate::memory::pages::page_table::lemma_flag_bits();
        }
            assert(1u64 | 0x8000_0000_0000_0000u64 == 0x8000_0000_0000_0001u64) by {
            crate::memory::pages::page_table::lemma_flag_bits();
        }
            assert(3u64 | 0x8000_0000_0000_0000u64 == 0x8000_0000_0000_0003u64) by {
            crate::memory::pages::page_table::lemma_flag_bits();
        }
            let wb: u64 = if w { 2 } else { 0 };
            let ab: u64 = if a { 1 } else { 0 };
            let xb: u64 = if x { 0 } else { 0x8000_0000_0000_0000 };
            assert(2u64 & 0x8000_0000_0000_01ffu64 == 2) by {
            crate::memory::pages::page_table::lemma_flag_bits();
        }
            assert(1u64 & 0x8000_0000_0000_01ffu64 == 1) by {
            crate::memory::pages::page_table::lemma_flag_bits();
        }
            assert(0x8000_0000_0000_0000u64 & 0x8000_0000_0000_01ffu64 == 0x8000_0000_0000_0000) by {
                lemma_flag_bits();
            }
            assert(0u64 | wb == wb) by {
            crate::memory::pages::page_table::lemma_flag_bits();
        }
            assert(wb | 0u64 == wb) by {
            crate::memory::pages::page_table::lemma_flag_bits();
        }
            assert((wb | ab) | 0u64 == wb | ab) by {
            crate::memory::pages::page_table::lemma_flag_bits();
        }
            assert(flags@ == (wb | ab) | xb);
        }
        flags
    }
}

/// The page flags for the raw ELF section flags `sf`: writable sections are writable, allocated ones
/// present, and sections that are not executable are no-execute.
pub open spec fn elf_entry_flags(sf: u64) -> u64 {
    (if sf & ElfSectionFlags::ELF_SECTION_WRITABLE == ElfSectionFlags::ELF_SECTION_WRITABLE {
        EntryFlags::WRITABLE
    } else {
        0
    }) | (if sf & ElfSectionFlags::ELF_SECTION_ALLOCATED == ElfSectionFlags::ELF_SECTION_ALLOCATED {
        EntryFlags::PRESENT
    } else {
        0
    }) | (if sf & ElfSectionFlags::ELF_SECTION_EXECUTABLE == ElfSectionFlags::ELF_SECTION_EXECUTABLE {
        0
    } else {
        EntryFlags::NO_EXECUTE
    })
}

/// The bit facts about entry flags that the entry and table code uses.
pub proof fn lemma_flag_bits()
    by (bit_vector)
    ensures
        0u64 | 2u64 == 2u64,
        0u64 | 1u64 == 1u64,
        0u64 | 0x8000_0000_0000_0000u64 == 0x8000_0000_0000_0000u64,
        2u64 | 1u64 == 3u64,
        2u64 | 0x8000_0000_0000_0000u64 == 0x8000_0000_0000_0002u64,
        1u64 | 0x8000_0000_0000_0000u64 == 0x8000_0000_0000_0001u64,
        3u64 | 0x8000_0000_0000_0000u64 == 0x8000_0000_0000_0003u64,
        2u64 & 0x8000_0000_0000_01ffu64 == 2u64,
        1u64 & 0x8000_0000_0000_01ffu64 == 1u64,
        0x80u64 & 0x8000_0000_0000_01ffu64 == 0x80u64,
        0x8000_0000_0000_0000u64 & 0x8000_0000_0000_01ffu64 == 0x8000_0000_0000_0000u64,
        0u64 & !0x8000_0000_0000_01ffu64 == 0u64,
        3u64 & !0x8000_0000_0000_01ffu64 == 0u64,
        3u64 & 1u64 != 0u64,
        0u64 & 1u64 == 0u64,
        (0x1u64 | 0x2u64) == 0x3u64,
        (0x1u64 | 0x2u64) & 0x8000_0000_0000_01ffu64 == 0x3u64,
        0x8000_0000_0000_0001u64 & 0x8000_0000_0000_01ffu64 == 0x8000_0000_0000_0001u64,
        0x8000_0000_0000_0001u64 | 1u64 == 0x8000_0000_0000_0001u64,
        0x8000_0000_0000_0003u64 & 0x8000_0000_0000_01ffu64 == 0x8000_0000_0000_0003u64,
        0x8000_0000_0000_0003u64 | 1u64 == 0x8000_0000_0000_0003u64,
        forall|x: u64| #[trigger] (0u64 | x) == x,
        forall|x: u64| #[trigger] (x | 0u64) == x,
        forall|v: u64| (#[trigger] ((v & 0x8000_0000_0000_01ffu64) & 1u64) == 1u64) <==> v & 1u64 != 0u64,
        forall|v: u64| (#[trigger] ((v & 0x8000_0000_0000_01ffu64) & 0x80u64) == 0x80u64) <==> v & 0x80u64 != 0u64,
        forall|v: u64| #[trigger] (v & 1u64) != 0u64 ==> v != 0u64,
        forall|b: u64| #[trigger] ((b & 0x8000_0000_0000_01ffu64) & !0x8000_0000_0000_01ffu64) == 0u64,
        forall|a: u64, b: u64|
            a & !0x8000_0000_0000_01ffu64 == 0u64 && b & !0x8000_0000_0000_01ffu64 == 0u64 ==> #[trigger] ((a | b)
                & !0x8000_0000_0000_01ffu64) == 0u64,
        forall|f: u64|
            f & !0x8000_0000_0000_01ffu64 == 0u64 ==> #[trigger] ((f | 1u64) & !0x8000_0000_0000_01ffu64) == 0u64 && (f
                | 1u64) & 1u64 != 0u64,
        forall|n: u64|
            #[trigger] (n & 0x8000_0000_0000_01ffu64) == 3u64 ==> n & 1u64 != 0u64 && n & 0x80u64 == 0u64,
{
}

/// The physical address that an entry with the raw value `v` points to, if it is present.
pub open spec fn entry_phy_addr(v: u64) -> Option<u64> {
    if v & EntryFlags::PRESENT != 0 {
        Some(v & ENTRY_ADDR_MASK)
    } else {
        None
    }
}

/// The raw value of an entry after its address part is replaced by `addr` and its flags by `flags`.
pub open spec fn entry_set_value(v: u64, addr: u64, flags: u64) -> u64 {
    (((v & !ENTRY_ADDR_MASK) | addr) & ENTRY_ADDR_MASK) | flags
}

/// An entry in a page table: an address with some flags.
/// That´s why this is not an addr and instead, a u64.
/// Also, an entry is exactly 64 bits (u64) and not usize.
#[derive(Clone, Copy)]
pub struct Entry(u64);

impl View for Entry {
    type V = u64;

    closed spec fn view(&self) -> u64 {
        self.0
    }
}

impl Entry {
    /// An entry with the raw value `value`.
    pub fn from_raw(value: u64) -> (r: Entry)
        ensures
            r@ == value,
    {
        Entry(value)
    }

    /// The raw value of the entry: its frame's address and its flags.
    pub fn raw(&self) -> (r: u64)
        ensures
            r == self@,
    {
        self.0
    }

    /// An entry equal to 0 is unused otherwise, it´s used.
    pub fn is_used(&self) -> (r: bool)
        ensures
            r == (self@ != 0),
    {
        self.0 != 0
    }

    pub fn set_unused(&mut self)
        ensures
            final(self)@ == 0,
    {
        self.0 = 0;
    }

    pub fn flags(&self) -> (r: EntryFlags)
        ensures
            r@ == self@ & EntryFlags::ALL,
    {
        EntryFlags::from_bits_truncate(self.0)
    }

    pub fn phy_addr(&self) -> (r: Option<PhysicalAddress>)
        ensures
            r == entry_phy_addr(self@),
    {
        let present = self.flags().contains(EntryFlags::from_bits_truncate(EntryFlags::PRESENT));
        let v = self.0;
        assert((v & 0x8000_0000_0000_01ffu64) & 1u64 == 1u64 <==> v & 1u64 != 0) by {
            crate::memory::pages::page_table::lemma_flag_bits();
        }
        assert(1u64 & 0x8000_0000_0000_01ffu64 == 1u64) by {
            crate::memory::pages::page_table::lemma_flag_bits();
        }
        if present {
            return Some(self.0 & ENTRY_ADDR_MASK);
        }
        None
    }

    pub fn pointed_frame(&self) -> (r: Option<Frame>)
        ensures
            r is Some <==> entry_phy_addr(self@) is Some,
            r matches Some(f) ==> f@ == entry_phy_addr(self@)->0 / FRAME_PAGE_SIZE,
    {
        match self.phy_addr() {
            Some(addr) => Some(Frame::from_phy_addr(addr)),
            None => None,
        }
    }

    pub fn set_flags(&mut self, flags: EntryFlags)
        ensures
            final(self)@ == (old(self)@ & ENTRY_ADDR_MASK) | flags@,
    {
        self.0 = (self.0 & ENTRY_ADDR_MASK) | flags.bits();
    }

    pub fn set_phy_addr(&mut self, frame: Frame)
        ensures
            final(self)@ == (old(self)@ & !ENTRY_ADDR_MASK) | (frame@ * FRAME_PAGE_SIZE) as u64,
    {
        self.0 = (self.0 & !ENTRY_ADDR_MASK) | frame.addr();
    }

    pub fn set(&mut self, frame: Frame, flags: EntryFlags)
        ensures
            final(self)@ == entry_set_value(old(self)@, (frame@ * FRAME_PAGE_SIZE) as u64, flags@),
    {
        self.set_phy_addr(frame);
        self.set_flags(flags);
    }
}

/// An entry that was set to a frame below 2^52 with present flags points to that frame and holds exactly those flags.
pub proof fn lemma_entry_set_then_read(v: u64, addr: u64, flags: u64)
    requires
        addr % FRAME_PAGE_SIZE == 0,
        addr < 0x10_0000_0000_0000,
        flags & !EntryFlags::ALL == 0,
        flags & EntryFlags::PRESENT != 0,
    ensures
        entry_phy_addr(entry_set_value(v, addr, flags)) == Some(addr),
        entry_set_value(v, addr, flags) & EntryFlags::ALL == flags,
        entry_set_value(v, addr, flags) != 0,
{
    let n = entry_set_value(v, addr, flags);
    assert(addr & 0xfffu64 == 0) by (bit_vector)
        requires
            addr % 4096 == 0,
    ;
    assert(n & 0x000fffff_fffff000u64 == addr) by (bit_vector)
        requires
            n == (((v & !0x000fffff_fffff000u64) | addr) & 0x000fffff_fffff000u64) | flags,
            addr & 0xfffu64 == 0,
            addr < 0x10_0000_0000_0000,
            flags & !0x8000_0000_0000_01ffu64 == 0,
    ;
    assert(n & 0x8000_0000_0000_01ffu64 == flags && n & 1u64 != 0 && n != 0) by (bit_vector)
        requires
            n == (((v & !0x000fffff_fffff000u64) | addr) & 0x000fffff_fffff000u64) | flags,
            flags & !0x8000_0000_0000_01ffu64 == 0,
            flags & 1u64 != 0,
    ;
}

/// The marker of a page table level.
pub trait TableLevel {}

/// Marks a level 4 table.
pub enum Level4 {
    Level4,
}

/// Marks a level 3 table.
pub enum Level3 {
    Level3,
}

/// Marks a level 2 table.
pub enum Level2 {
    Level2,
}

/// Marks a level 1 table.
pub enum Level1 {
    Level1,
}

impl TableLevel for Level4 {}

impl TableLevel for Level3 {}

impl TableLevel for Level2 {}

impl TableLevel for Level1 {}

/// A level whose entries point to tables of the next level.
pub trait HierarchicalLevel: TableLevel {
    type NextLevel: TableLevel;
}

impl HierarchicalLevel for Level4 {
    type NextLevel = Level3;
}

impl HierarchicalLevel for Level3 {
    type NextLevel = Level2;
}

impl HierarchicalLevel for Level2 {
    type NextLevel = Level1;
}

/// A page table of level `L`.
pub struct Table<L: TableLevel> {
    pub entries: Vec<Entry>,
    _level: PhantomData<L>,
}

impl<L: TableLevel> View for Table<L> {
    type V = Seq<u64>;

    /// The raw values of the entries.
    closed spec fn view(&self) -> Seq<u64> {
        self.entries@.map_values(|e: Entry| e@)
    }
}

/// The address of the table that the entry `index` of the table at `table_addr` points to, through the recursive mapping.
pub open spec fn next_table_addr_spec(table_addr: u64, index: u64) -> u64 {
    (table_addr << 9u64) | (index << 12u64)
}

impl<L: TableLevel> Table<L> {
    /// A table with `ENTRY_COUNT` unused entries.
    pub fn new() -> (r: Table<L>)
        ensures
            r@ == Seq::new(ENTRY_COUNT as nat, |i: int| 0u64),
    {
        let mut entries: Vec<Entry> = Vec::new();
        let mut i: usize = 0;
        while i < ENTRY_COUNT
            invariant
                i <= ENTRY_COUNT,
                entries@.len() == i,
                forall|k: int| 0 <= k < i ==> (#[trigger] entries@[k])@ == 0,
            decreases ENTRY_COUNT - i,
        {
            entries.push(Entry(0));
            i = i + 1;
        }
        let t = Table { entries, _level: PhantomData };
        assert(t@ =~= Seq::new(ENTRY_COUNT as nat, |i: int| 0u64));
        t
    }

    /// Marks every entry as unused.
    pub fn set_unused(&mut self)
        ensures
            final(self)@ == Seq::new(old(self)@.len(), |i: int| 0u64),
    {
        let n = self.entries.len();
        let mut i: usize = 0;
        while i < n
            invariant
                i <= n,
                n == self.entries@.len(),
                forall|k: int| 0 <= k < i ==> (#[trigger] self.entries@[k])@ == 0,
            decreases n - i,
        {
            self.entries[i].set_unused();
            i = i + 1;
        }
        assert(self@ =~= Seq::new(old(self)@.len(), |i: int| 0u64));
    }
}

impl<L: HierarchicalLevel> Table<L> {
    /// The address of the next level table held by entry `table_index`, where `table_addr` is the address at which
    /// this table is mapped; `None` when the index is out of range or the entry holds no table
    /// (it is not present, or it maps a huge page).
    pub fn next_table_addr(&self, table_addr: VirtualAddress, table_index: usize) -> (r: Option<VirtualAddress>)
        requires
            self@.len() == ENTRY_COUNT,
        ensures
            r == (if table_index < ENTRY_COUNT && self@[table_index as int] & EntryFlags::PRESENT != 0
                && self@[table_index as int] & EntryFlags::HUGE_PAGE == 0 {
                Some(next_table_addr_spec(table_addr, table_index as u64))
            } else {
                None::<u64>
            }),
    {
        // index must be between 0 and ENTRY_COUNT
        if table_index >= ENTRY_COUNT {
            return None;
        }
        let entry_flags = self.entries[table_index].flags();
        let present = entry_flags.contains(EntryFlags::from_bits_truncate(EntryFlags::PRESENT));
        let huge = entry_flags.contains(EntryFlags::from_bits_truncate(EntryFlags::HUGE_PAGE));
        let ghost v = self.entries@[table_index as int]@;
        assert(1u64 & 0x8000_0000_0000_01ffu64 == 1u64) by {
            crate::memory::pages::page_table::lemma_flag_bits();
        }
        assert(0x80u64 & 0x8000_0000_0000_01ffu64 == 0x80u64) by {
            crate::memory::pages::page_table::lemma_flag_bits();
        }
        assert(((v & 0x8000_0000_0000_01ffu64) & 1u64 == 1u64) <==> v & 1u64 != 0) by {
            crate::memory::pages::page_table::lemma_flag_bits();
        }
        assert(((v & 0x8000_0000_0000_01ffu64) & 0x80u64 == 0x80u64) <==> v & 0x80u64 != 0) by {
            crate::memory::pages::page_table::lemma_flag_bits();
        }
        if present && !huge {
            let idx = table_index as u64;
            return Some((table_addr << 9u64) | (idx << 12u64));  // see the comment on P4
        }
        None
    }
}

/// Following the recursive mapping from P4 gives the documented P3, P2 and P1 table addresses.
pub proof fn lemma_recursive_table_addresses(i: u64, j: u64, k: u64)
    requires
        i < 512,
        j < 512,
        k < 512,
    ensures
        next_table_addr_spec(P4, i) == 0o177777_777_777_777_000_0000u64 | (i << 12u64),
        next_table_addr_spec(next_table_addr_spec(P4, i), j) == 0o177777_777_777_000_000_0000u64 | (i
            << 21u64) | (j << 12u64),
        next_table_addr_spec(next_table_addr_spec(next_table_addr_spec(P4, i), j), k)
            == 0o177777_777_000_000_000_0000u64 | (i << 30u64) | (j << 21u64) | (k << 12u64),
{
    assert(((0o177777_777_777_777_777_0000u64 << 9u64) | (i << 12u64)) == 0o177777_777_777_777_000_0000u64
        | (i << 12u64)) by (bit_vector)
        requires
            i < 512,
    ;
    assert((((0o177777_777_777_777_000_0000u64 | (i << 12u64)) << 9u64) | (j << 12u64))
        == 0o177777_777_777_000_000_0000u64 | (i << 21u64) | (j << 12u64)) by (bit_vector)
        requires
            i < 512,
            j < 512,
    ;
    assert((((0o177777_777_777_000_000_0000u64 | (i << 21u64) | (j << 12u64)) << 9u64) | (k << 12u64))
        == 0o177777_777_000_000_000_0000u64 | (i << 30u64) | (j << 21u64) | (k << 12u64)) by (bit_vector)
        requires
            i < 512,
            j < 512,
            k < 512,
    ;
}

} // verus!
