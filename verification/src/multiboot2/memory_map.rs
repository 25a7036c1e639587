//! The multiboot2 memory map: the physical memory areas and their types.
use vstd::prelude::*;
use crate::memory::{align_down_spec, align_up_spec, is_power_of_two, AddrOps, PhysicalAddress};

verus! {

/// The type of a memory map area.
#[derive(PartialEq, Eq, Structural, Clone, Copy, Debug)]
pub enum MemoryMapEntryType {
    /// Type 1: RAM that can be used.
    AvailableRAM,
    /// Type 3: RAM that holds ACPI information.
    ACPIReclaimable,
    /// Type 4: RAM that must be preserved on hibernation.
    ReservedHibernation,
    /// Type 5: defective RAM.
    Defective,
    /// Any other type: reserved memory.
    Reserved,
}

/// The type of an area from the raw type number of the memory map.
pub open spec fn entry_type_of(raw: u32) -> MemoryMapEntryType {
    if raw == 1 {
        MemoryMapEntryType::AvailableRAM
    } else if raw == 3 {
        MemoryMapEntryType::ACPIReclaimable
    } else if raw == 4 {
        MemoryMapEntryType::ReservedHibernation
    } else if raw == 5 {
        MemoryMapEntryType::Defective
    } else {
        MemoryMapEntryType::Reserved
    }
}

/// One area of the memory map.
#[derive(Clone, Copy, Debug)]
pub struct MemoryMapEntry {
    pub base_addr: u64,
    pub length: u64,
    pub entry_type: u32,
    /// always 0
    pub reserved: u32,
}

/// The first address of an area that is a multiple of `align`.
pub open spec fn aligned_base_spec(e: MemoryMapEntry, align: u64) -> int {
    align_up_spec(e.base_addr as int, align as int)
}

/// How many bytes of an area lie in whole blocks of `align` bytes.
pub open spec fn aligned_length_spec(e: MemoryMapEntry, align: u64) -> int {
    let start = align_up_spec(e.base_addr as int, align as int);
    let end = align_down_spec(e.base_addr + e.length, align as int);
    if end > start {
        end - start
    } else {
        0
    }
}

/// The area lies far enough below the top of the address space for its aligned ends to be computed.
pub open spec fn entry_in_range(e: MemoryMapEntry, align: u64) -> bool {
    e.base_addr + e.length + align <= u64::MAX
}

impl MemoryMapEntry {
    /// The type of the area.
    pub fn entry_type(&self) -> (r: MemoryMapEntryType)
        ensures
            r == entry_type_of(self.entry_type),
    {
        if self.entry_type == 1 {
            MemoryMapEntryType::AvailableRAM
        } else if self.entry_type == 3 {
            MemoryMapEntryType::ACPIReclaimable
        } else if self.entry_type == 4 {
            MemoryMapEntryType::ReservedHibernation
        } else if self.entry_type == 5 {
            MemoryMapEntryType::Defective
        } else {
            MemoryMapEntryType::Reserved
        }
    }

    /// The first address of the area that is a multiple of `align`.
    pub fn aligned_base_addr(&self, align: u64) -> (r: PhysicalAddress)
        requires
            is_power_of_two(align),
            entry_in_range(*self, align),
        ensures
            r == aligned_base_spec(*self, align),
    {
        self.base_addr.align_up(align)
    }

    /// How many bytes of the area lie in whole blocks of `align` bytes, starting at [MemoryMapEntry::aligned_base_addr].
    pub fn aligned_length(&self, align: u64) -> (r: u64)
        requires
            is_power_of_two(align),
            entry_in_range(*self, align),
        ensures
            r == aligned_length_spec(*self, align),
    {
        let start = self.base_addr.align_up(align);
        let end = (self.base_addr + self.length).align_down(align);
        if end > start {
            end - start
        } else {
            0
        }
    }
}

/// The entries of the memory map.
#[derive(Clone)]
pub struct MemoryMapEntries(pub Vec<MemoryMapEntry>);

impl MemoryMapEntries {
    /// The areas of available RAM, in order.
    pub open spec fn usable_spec(entries: Seq<MemoryMapEntry>) -> Seq<MemoryMapEntry>
        decreases entries.len(),
    {
        if entries.len() == 0 {
            Seq::empty()
        } else if entry_type_of(entries.last().entry_type) == MemoryMapEntryType::AvailableRAM {
            Self::usable_spec(entries.drop_last()).push(entries.last())
        } else {
            Self::usable_spec(entries.drop_last())
        }
    }

    /// Every area of available RAM is one of the entries.
    pub proof fn lemma_usable_from_entries(entries: Seq<MemoryMapEntry>)
        ensures
            forall|k: int|
                0 <= k < Self::usable_spec(entries).len() ==> entries.contains(
                    #[trigger] Self::usable_spec(entries)[k],
                ),
        decreases entries.len(),
    {
        if entries.len() > 0 {
            Self::lemma_usable_from_entries(entries.drop_last());
            assert forall|k: int| 0 <= k < Self::usable_spec(entries).len() implies entries.contains(
                #[trigger] Self::usable_spec(entries)[k],
            ) by {
                let u = Self::usable_spec(entries.drop_last());
                if k < u.len() {
                    assert(entries.drop_last().contains(u[k]));
                    let j = choose|j: int| 0 <= j < entries.drop_last().len() && entries.drop_last()[j] == u[k];
                    assert(entries[j] == u[k]);
                } else {
                    assert(entries[entries.len() - 1] == Self::usable_spec(entries)[k]);
                }
            }
        }
    }

    /// The areas of available RAM, in order.
    pub fn usable_areas(&self) -> (r: Vec<MemoryMapEntry>)
        ensures
            r@ == Self::usable_spec(self.0@),
    {
        let mut r: Vec<MemoryMapEntry> = Vec::new();
        let mut i: usize = 0;
        while i < self.0.len()
            invariant
                i <= self.0@.len(),
                r@ == Self::usable_spec(self.0@.take(i as int)),
            decreases self.0@.len() - i,
        {
            let e = self.0[i];
            proof {
                assert(self.0@.take(i as int + 1).drop_last() =~= self.0@.take(i as int));
            }
            if e.entry_type() == MemoryMapEntryType::AvailableRAM {
                r.push(e);
            }
            i = i + 1;
        }
        assert(self.0@.take(self.0@.len() as int) =~= self.0@);
        r
    }
}

} // verus!
