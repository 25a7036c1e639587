//! ELF section flags as the multiboot2 ELF symbols tag reports them.
use vstd::prelude::*;

verus! {

/// The flags of an ELF section header (`sh_flags`).
#[derive(Clone, Copy)]
pub struct ElfSectionFlags(u64);

impl View for ElfSectionFlags {
    type V = u64;

    closed spec fn view(&self) -> u64 {
        self.0
    }
}

impl ElfSectionFlags {
    /// `SHF_WRITE`: the section holds writable data.
    pub const ELF_SECTION_WRITABLE: u64 = 0x1;
    /// `SHF_ALLOC`: the section occupies memory while the program runs.
    pub const ELF_SECTION_ALLOCATED: u64 = 0x2;
    /// `SHF_EXECINSTR`: the section holds executable instructions.
    pub const ELF_SECTION_EXECUTABLE: u64 = 0x4;

    /// The flags of the raw `sh_flags` value `bits`.
    pub fn from_bits_retain(bits: u64) -> (r: ElfSectionFlags)
        ensures
            r@ == bits,
    {
        ElfSectionFlags(bits)
    }

    /// The raw bits.
    pub fn bits(&self) -> (r: u64)
        ensures
            r == self@,
    {
        self.0
    }

    /// The flag (or flags) `flag` are all set.
    pub fn contains(&self, flag: u64) -> (r: bool)
        ensures
            r == (self@ & flag == flag),
    {
        (self.0 & flag) == flag
    }
}

/// One section header of the kernel ELF file, as the multiboot2 ELF symbols tag reports it.
#[derive(Clone, Copy)]
pub struct ElfSection {
    load_addr: u64,
    size: u64,
    flags: ElfSectionFlags,
}

impl View for ElfSection {
    type V = (u64, u64, u64);

    /// The load address, the size in bytes and the raw flags.
    closed spec fn view(&self) -> (u64, u64, u64) {
        (self.load_addr, self.size, self.flags@)
    }
}

/// A section with raw flags `flags` takes memory while the kernel runs.
pub open spec fn is_allocated(flags: u64) -> bool {
    flags & ElfSectionFlags::ELF_SECTION_ALLOCATED == ElfSectionFlags::ELF_SECTION_ALLOCATED
}

impl ElfSection {
    /// The section loaded at `load_addr`, `size` bytes long, with `flags`.
    pub fn new(load_addr: u64, size: u64, flags: ElfSectionFlags) -> (r: ElfSection)
        ensures
            r@ == (load_addr, size, flags@),
    {
        ElfSection { load_addr, size, flags }
    }

    /// The physical address where the section is loaded.
    pub fn load_addr(&self) -> (r: u64)
        ensures
            r == self@.0,
    {
        self.load_addr
    }

    /// The size of the section in bytes.
    pub fn size(&self) -> (r: u64)
        ensures
            r == self@.1,
    {
        self.size
    }

    /// The section's flags.
    pub fn flags(&self) -> (r: ElfSectionFlags)
        ensures
            r@ == self@.2,
    {
        self.flags
    }
}

} // verus!
