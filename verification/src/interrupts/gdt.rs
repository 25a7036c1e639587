//! The Global Descriptor Table and its segment descriptors.
// https://wiki.osdev.org/Global_Descriptor_Table
// https://wiki.osdev.org/GDT_Tutorial
use vstd::prelude::*;
use crate::memory::VirtualAddress;

verus! {

/// The access byte of a code or data segment descriptor.
pub struct NormalDescAccessByte(u8);

impl View for NormalDescAccessByte {
    type V = u8;

    closed spec fn view(&self) -> u8 {
        self.0
    }
}

impl NormalDescAccessByte {
    pub const ACCESSED: u8 = 0x1;
    pub const RW: u8 = 0x2;
    /// Direction bit/Conforming bit
    pub const DC: u8 = 0x4;
    pub const EXECUTABLE: u8 = 0x8;
    /// Descriptor type (code/data or system descriptor)
    pub const IS_CODE_OR_DATA: u8 = 0x10;
    pub const DPL_LO: u8 = 0x20;
    pub const DPL_HI: u8 = 0x40;
    pub const PRESENT: u8 = 0x80;

    /// The access byte with the flag bits `bits` (every bit of the byte is a flag).
    pub fn from_bits_truncate(bits: u8) -> (r: NormalDescAccessByte)
        ensures
            r@ == bits,
    {
        NormalDescAccessByte(bits)
    }

    pub fn bits(&self) -> (r: u8)
        ensures
            r == self@,
    {
        self.0
    }
}

/// The access byte of a system segment descriptor (its low 4 bits hold the type, see [SystemDescAccessByteType]).
pub struct SystemDescAccessByte(u8);

impl View for SystemDescAccessByte {
    type V = u8;

    closed spec fn view(&self) -> u8 {
        self.0
    }
}

impl SystemDescAccessByte {
    /// Descriptor type (code/data or system descriptor)
    pub const IS_CODE_OR_DATA: u8 = 0x10;
    pub const DPL_LO: u8 = 0x20;
    pub const DPL_HI: u8 = 0x40;
    pub const PRESENT: u8 = 0x80;

    /// The access byte with the flag bits of `bits` (the type bits are dropped).
    pub fn from_bits_truncate(bits: u8) -> (r: SystemDescAccessByte)
        ensures
            r@ == bits & 0xF0,
    {
        SystemDescAccessByte(bits & 0xF0)
    }

    pub fn bits(&self) -> (r: u8)
        ensures
            r == self@,
    {
        self.0
    }
}

/// The flags nibble of a segment descriptor.
pub struct SegmentFlags(u8);

impl View for SegmentFlags {
    type V = u8;

    closed spec fn view(&self) -> u8 {
        self.0
    }
}

impl SegmentFlags {
    #[verifier::type_invariant]
    spec fn inv(self) -> bool {
        self.0 & 0xF1 == 0
    }

    pub const LONG_MODE_CODE: u8 = 0x2;
    pub const DB: u8 = 0x4;
    pub const GRANULARITY: u8 = 0x8;

    /// The flags of `bits` (bit 0 is reserved and bits 4 to 7 are not flags, so they are dropped).
    pub fn from_bits_truncate(bits: u8) -> (r: SegmentFlags)
        ensures
            r@ == bits & 0x0E,
    {
        assert((bits & 0x0E) & 0xF1 == 0) by (bit_vector);
        SegmentFlags(bits & 0x0E)
    }

    pub fn bits(&self) -> (r: u8)
        ensures
            r == self@,
            r <= 0x0F,
    {
        proof {
            use_type_invariant(self);
        }
        let b = self.0;
        assert(b <= 0x0F) by (bit_vector)
            requires
                b & 0xF1 == 0,
        ;
        b
    }
}


/// The type of a system segment descriptor.
pub enum SystemDescAccessByteType {
    LDT,
    TssAvailable64bit,
    TssBusy64bit,
}

impl SystemDescAccessByteType {
    /// The value that the type takes in the low bits of the access byte.
    pub open spec fn spec_value(self) -> u8 {
        match self {
            SystemDescAccessByteType::LDT => 0x2,
            SystemDescAccessByteType::TssAvailable64bit => 0x9,
            SystemDescAccessByteType::TssBusy64bit => 0xb,
        }
    }

    /// The value that the type takes in the low bits of the access byte.
    pub fn value(&self) -> (r: u8)
        ensures
            r == self.spec_value(),
    {
        match self {
            SystemDescAccessByteType::LDT => 0x2,
            SystemDescAccessByteType::TssAvailable64bit => 0x9,
            SystemDescAccessByteType::TssBusy64bit => 0xb,
        }
    }
}

/// A code or data segment descriptor (8 bytes).
pub struct NormalSegmentDescriptor {
    limit_0: u16,
    base_0: u16,
    base_1: u8,
    /// NormalAccessByte or SystemSegmentAccessByte
    access_byte: u8,
    limit_1_and_flags: u8,
    base_2: u8,
}

/// The 20 bit segment limit of a descriptor.
pub open spec fn desc_limit(limit_0: u16, limit_1_and_flags: u8) -> u32 {
    (limit_0 as u32) | (((limit_1_and_flags & 0x0F) as u32) << 16u32)
}

/// The 32 bit base of a descriptor (the low half of a system descriptor's base).
pub open spec fn desc_base(base_0: u16, base_1: u8, base_2: u8) -> u32 {
    (base_0 as u32) | ((base_1 as u32) << 16u32) | ((base_2 as u32) << 24u32)
}

/// The descriptor as the 64 bit GDT entry that holds it.
pub open spec fn desc_entry(
    limit_0: u16,
    base_0: u16,
    base_1: u8,
    access_byte: u8,
    limit_1_and_flags: u8,
    base_2: u8,
) -> u64 {
    (limit_0 as u64) | ((base_0 as u64) << 16u64) | ((base_1 as u64) << 32u64) | ((access_byte as u64)
        << 40u64) | ((limit_1_and_flags as u64) << 48u64) | ((base_2 as u64) << 56u64)
}

impl NormalSegmentDescriptor {
    /// The segment limit (20 bits).
    pub closed spec fn limit(&self) -> u32 {
        desc_limit(self.limit_0, self.limit_1_and_flags)
    }

    /// The segment base (32 bits).
    pub closed spec fn base(&self) -> u32 {
        desc_base(self.base_0, self.base_1, self.base_2)
    }

    /// The access byte.
    pub closed spec fn access(&self) -> u8 {
        self.access_byte
    }

    /// The flags nibble.
    pub closed spec fn flags(&self) -> u8 {
        self.limit_1_and_flags >> 4u8
    }

    /// The 64 bit GDT entry that holds the descriptor.
    pub closed spec fn entry(&self) -> u64 {
        desc_entry(
            self.limit_0,
            self.base_0,
            self.base_1,
            self.access_byte,
            self.limit_1_and_flags,
            self.base_2,
        )
    }

    /// Creates a completly zeroed out `NormalSegmentDescriptor`.
    pub fn new() -> (r: Self)
        ensures
            r.entry() == 0,
            r.limit() == 0,
            r.base() == 0,
            r.access() == 0,
            r.flags() == 0,
    {
        let r = NormalSegmentDescriptor {
            limit_0: 0,
            base_0: 0,
            base_1: 0,
            access_byte: 0,
            limit_1_and_flags: 0,
            base_2: 0,
        };
        assert(desc_entry(0, 0, 0, 0, 0, 0) == 0) by (bit_vector);
        assert(desc_limit(0, 0) == 0) by (bit_vector);
        assert(desc_base(0, 0, 0) == 0) by (bit_vector);
        assert(0u8 >> 4u8 == 0) by (bit_vector);
        r
    }

    /// The GDT entry of the descriptor.
    fn to_entry(&self) -> (r: u64)
        ensures
            r == self.entry(),
    {
        self.limit_0 as u64 | (self.base_0 as u64) << 16u64 | (self.base_1 as u64) << 32u64 | (
        self.access_byte as u64) << 40u64 | (self.limit_1_and_flags as u64) << 48u64
            | (self.base_2 as u64) << 56u64
    }
}

impl Default for NormalSegmentDescriptor {
    fn default() -> (r: Self)
        ensures
            r.entry() == 0,
    {
        Self::new()
    }
}

/// A system segment descriptor (16 bytes): a normal descriptor followed by the high half of the base.
pub struct SystemSegmentDescriptor {
    normal_desc: NormalSegmentDescriptor,
    base_3: u32,
    reserved: u32,
}

impl SystemSegmentDescriptor {
    /// The normal descriptor that forms the low half.
    pub closed spec fn low(&self) -> NormalSegmentDescriptor {
        self.normal_desc
    }

    /// Bits 32 to 63 of the base.
    pub closed spec fn base_high(&self) -> u32 {
        self.base_3
    }

    /// The second GDT entry of the descriptor.
    pub closed spec fn high_entry(&self) -> u64 {
        (self.base_3 as u64) | ((self.reserved as u64) << 32u64)
    }

    /// Creates a completly zeroed out `SystemSegmentDescriptor`.
    pub fn new() -> (r: Self)
        ensures
            r.low().entry() == 0,
            r.high_entry() == 0,
            r.base_high() == 0,
    {
        assert((0u32 as u64) | ((0u32 as u64) << 32u64) == 0) by (bit_vector);
        SystemSegmentDescriptor { normal_desc: NormalSegmentDescriptor::new(), base_3: 0, reserved: 0 }
    }

    fn to_high_entry(&self) -> (r: u64)
        ensures
            r == self.high_entry(),
    {
        self.base_3 as u64 | (self.reserved as u64) << 32u64
    }
}

impl Default for SystemSegmentDescriptor {
    fn default() -> (r: Self)
        ensures
            r.low().entry() == 0,
            r.high_entry() == 0,
    {
        Self::new()
    }
}

/// The access byte arguments of a normal descriptor.
pub struct NormalDescAccessByteArgs {
    flags: NormalDescAccessByte,
}

impl NormalDescAccessByteArgs {
    pub closed spec fn bits(&self) -> u8 {
        self.flags@
    }

    pub fn new(flags: NormalDescAccessByte) -> (r: Self)
        ensures
            r.bits() == flags@,
    {
        NormalDescAccessByteArgs { flags }
    }
}

/// The access byte arguments of a system descriptor: flags and type.
pub struct SystemDescAccessByteArgs {
    flags: SystemDescAccessByte,
    seg_type: SystemDescAccessByteType,
}

impl SystemDescAccessByteArgs {
    pub closed spec fn bits(&self) -> u8 {
        self.flags@
    }

    pub closed spec fn seg_type(&self) -> SystemDescAccessByteType {
        self.seg_type
    }

    pub fn new(flags: SystemDescAccessByte, seg_type: SystemDescAccessByteType) -> (r: Self)
        ensures
            r.bits() == flags@,
            r.seg_type() == seg_type,
    {
        SystemDescAccessByteArgs { flags, seg_type }
    }
}

/// The operations that build a segment descriptor.
pub trait SegmentDescriptor {
    type SegmentDescriptorArgs;

    /// Sets the 20 bit limit (higher bits of `limit` are dropped).
    fn set_limit(&mut self, limit: u32);

    /// Sets the base address (for a TSS descriptor: the address of the TSS).
    fn set_base(&mut self, base: VirtualAddress);

    fn set_access_byte(&mut self, args: Self::SegmentDescriptorArgs);

    fn set_flags(&mut self, flags: SegmentFlags);
}

impl SegmentDescriptor for NormalSegmentDescriptor {
    type SegmentDescriptorArgs = NormalDescAccessByteArgs;

    fn set_limit(&mut self, limit: u32)
        ensures
            final(self).limit() == limit & 0xF_FFFF,
            final(self).base() == old(self).base(),
            final(self).access() == old(self).access(),
            final(self).flags() == old(self).flags(),
    {
        let l1f = self.limit_1_and_flags;
        self.limit_0 = (limit & 0xFFFF) as u16;
        self.limit_1_and_flags = (l1f & 0xF0) | ((limit >> 16u32) & 0x0F) as u8;
        let nl0 = self.limit_0;
        let nl1f = self.limit_1_and_flags;
        assert(desc_limit(nl0, nl1f) == limit & 0xF_FFFF && nl1f >> 4u8 == l1f >> 4u8) by (bit_vector)
            requires
                nl0 == (limit & 0xFFFF) as u16,
                nl1f == (l1f & 0xF0) | ((limit >> 16u32) & 0x0F) as u8,
        ;
    }

    fn set_base(&mut self, base: VirtualAddress)
        ensures
            final(self).base() == (base & 0xFFFF_FFFF) as u32,
            final(self).limit() == old(self).limit(),
            final(self).access() == old(self).access(),
            final(self).flags() == old(self).flags(),
    {
        self.base_0 = ((base >> 0u64) & 0x0000_FFFF) as u16;
        self.base_1 = ((base >> 16u64) & 0x0000_00FF) as u8;
        self.base_2 = ((base >> 24u64) & 0x0000_00FF) as u8;
        let (b0, b1, b2) = (self.base_0, self.base_1, self.base_2);
        assert(desc_base(b0, b1, b2) == (base & 0xFFFF_FFFF) as u32) by (bit_vector)
            requires
                b0 == ((base >> 0u64) & 0x0000_FFFF) as u16,
                b1 == ((base >> 16u64) & 0x0000_00FF) as u8,
                b2 == ((base >> 24u64) & 0x0000_00FF) as u8,
        ;
    }

    fn set_access_byte(&mut self, args: Self::SegmentDescriptorArgs)
        ensures
            final(self).access() == args.bits(),
            final(self).limit() == old(self).limit(),
            final(self).base() == old(self).base(),
            final(self).flags() == old(self).flags(),
    {
        self.access_byte = args.flags.bits();
    }

    fn set_flags(&mut self, flags: SegmentFlags)
        ensures
            final(self).flags() == flags@,
            final(self).limit() == old(self).limit(),
            final(self).base() == old(self).base(),
            final(self).access() == old(self).access(),
    {
        let l1f = self.limit_1_and_flags;
        let fb = flags.bits();
        self.limit_1_and_flags = (l1f & 0x0F) | (fb << 4u8);
        let l0 = self.limit_0;
        let nl1f = self.limit_1_and_flags;
        assert(nl1f >> 4u8 == fb && desc_limit(l0, nl1f) == desc_limit(l0, l1f)) by (bit_vector)
            requires
                fb <= 0x0F,
                nl1f == (l1f & 0x0F) | (fb << 4u8),
        ;
    }
}

impl SegmentDescriptor for SystemSegmentDescriptor {
    type SegmentDescriptorArgs = SystemDescAccessByteArgs;

    fn set_limit(&mut self, limit: u32)
        ensures
            final(self).low().limit() == limit & 0xF_FFFF,
            final(self).low().base() == old(self).low().base(),
            final(self).low().access() == old(self).low().access(),
            final(self).low().flags() == old(self).low().flags(),
            final(self).base_high() == old(self).base_high(),
            final(self).high_entry() == old(self).high_entry(),
    {
        self.normal_desc.set_limit(limit);
    }

    fn set_base(&mut self, base: VirtualAddress)
        ensures
            final(self).low().base() == (base & 0xFFFF_FFFF) as u32,
            final(self).base_high() == ((base >> 32u64) & 0xFFFF_FFFF) as u32,
            final(self).low().limit() == old(self).low().limit(),
            final(self).low().access() == old(self).low().access(),
            final(self).low().flags() == old(self).low().flags(),
    {
        self.normal_desc.set_base(base);
        self.base_3 = ((base >> 32u64) & 0xFFFF_FFFF) as u32;
    }

    fn set_access_byte(&mut self, args: Self::SegmentDescriptorArgs)
        ensures
            final(self).low().access() == args.bits() | args.seg_type().spec_value(),
            final(self).low().limit() == old(self).low().limit(),
            final(self).low().base() == old(self).low().base(),
            final(self).low().flags() == old(self).low().flags(),
            final(self).high_entry() == old(self).high_entry(),
    {
        self.normal_desc.access_byte = args.flags.bits();
        self.normal_desc.access_byte = self.normal_desc.access_byte | args.seg_type.value();
    }

    fn set_flags(&mut self, flags: SegmentFlags)
        ensures
            final(self).low().flags() == flags@,
            final(self).low().limit() == old(self).low().limit(),
            final(self).low().base() == old(self).low().base(),
            final(self).low().access() == old(self).low().access(),
            final(self).high_entry() == old(self).high_entry(),
    {
        self.normal_desc.set_flags(flags);
    }
}

/// A descriptor to add to the GDT.
pub enum Descriptor<'a> {
    NormalDescriptor(&'a NormalSegmentDescriptor),
    SystemDescriptor(&'a SystemSegmentDescriptor),
}

/// This represents a 64bit long-mode GDT that holds at most 5 normal descriptors (including the null descriptor) and 1 system segment.
pub struct GDT {
    descriptors: Vec<u64>,
    // metadata to keep track of the GDT state
    normal_desc_count: u8,
    system_desc_count: u8,
}

// https://wiki.osdev.org/Segment_Selector
/// A segment selector: the byte offset of a descriptor in the GDT.
pub struct SegmentSelector {
    selector: u16,
}

impl View for SegmentSelector {
    type V = u16;

    closed spec fn view(&self) -> u16 {
        self.selector
    }
}

impl SegmentSelector {
    pub fn as_u16(&self) -> (r: u16)
        ensures
            r == self@,
    {
        self.selector
    }
}

#[derive(Debug, PartialEq, Eq, Structural)]
pub enum GdtError {
    NotEnoughGdtSpace,
}

impl GDT {
    #[verifier::type_invariant]
    spec fn inv(self) -> bool {
        &&& self.descriptors@.len() == 7
        &&& 1 <= self.normal_desc_count <= 5
        &&& self.system_desc_count <= 1
    }

    /// The 7 entries of the table.
    pub closed spec fn entries(&self) -> Seq<u64> {
        self.descriptors@
    }

    /// How many normal descriptors it holds (the null descriptor included).
    pub closed spec fn normal_count(&self) -> nat {
        self.normal_desc_count as nat
    }

    /// How many system descriptors it holds.
    pub closed spec fn system_count(&self) -> nat {
        self.system_desc_count as nat
    }

    /// How many entries are in use: a system descriptor takes two.
    pub open spec fn used_entries(&self) -> nat {
        self.normal_count() + self.system_count() * 2
    }

    /// Creates a new GDT with just a null descriptor,
    pub fn new() -> (r: Self)
        ensures
            r.entries() == Seq::new(7, |i: int| 0u64),
            r.normal_count() == 1,
            r.system_count() == 0,
    {
        let descriptors: Vec<u64> = vec![0u64, 0u64, 0u64, 0u64, 0u64, 0u64, 0u64];
        assert(descriptors@ =~= Seq::new(7, |i: int| 0u64));
        GDT { descriptors, normal_desc_count: 1, system_desc_count: 0 }
    }

    /// The entries of the table and how many of them are in use.
    pub fn descriptors(&self) -> (r: (&[u64], usize))
        ensures
            r.0@ == self.entries(),
            r.1 == self.used_entries(),
            r.1 <= 7,
            self.entries().len() == 7,
    {
        proof {
            use_type_invariant(self);
        }
        (self.descriptors.as_slice(), self.normal_desc_count as usize + self.system_desc_count as usize * 2)
    }

    /// Adds `desc` to the GDT and returs a SegmentSelector that points to the newly added descriptor.
    ///
    /// A normal descriptor takes the next free entry while fewer than 5 normal descriptors are held;
    /// a system descriptor takes the next two free entries if none is held yet.
    pub fn new_descriptor(&mut self, desc: Descriptor) -> (r: Result<SegmentSelector, GdtError>)
        ensures
            ({
                let used = old(self).used_entries();
                match desc {
                    Descriptor::NormalDescriptor(d) => {
                        if old(self).normal_count() >= 5 {
                            &&& r == Err::<SegmentSelector, GdtError>(GdtError::NotEnoughGdtSpace)
                            &&& *final(self) == *old(self)
                        } else {
                            &&& r matches Ok(sel) && sel@ == used * 8
                            &&& final(self).entries() == old(self).entries().update(used as int, d.entry())
                            &&& final(self).normal_count() == old(self).normal_count() + 1
                            &&& final(self).system_count() == old(self).system_count()
                        }
                    },
                    Descriptor::SystemDescriptor(d) => {
                        if old(self).system_count() >= 1 {
                            &&& r == Err::<SegmentSelector, GdtError>(GdtError::NotEnoughGdtSpace)
                            &&& *final(self) == *old(self)
                        } else {
                            &&& r matches Ok(sel) && sel@ == used * 8
                            &&& final(self).entries() == old(self).entries().update(
                                used as int,
                                d.low().entry(),
                            ).update(used + 1int, d.high_entry())
                            &&& final(self).normal_count() == old(self).normal_count()
                            &&& final(self).system_count() == 1
                        }
                    },
                }
            }),
            old(self).entries().len() == 7,
            final(self).entries().len() == 7,
            r matches Ok(sel) ==> {
                let taken = if desc is SystemDescriptor { 2int } else { 1int };
                &&& final(self).used_entries() == old(self).used_entries() + taken
                &&& 8 <= sel@
                &&& sel@ / 8 + taken <= 7
                &&& sel@ / 8 == old(self).used_entries()
            },
            r is Err ==> final(self).used_entries() == old(self).used_entries(),
            old(self).used_entries() <= 7,
            final(self).used_entries() <= 7,
            gdt_add(old(self).normal_count(), old(self).system_count(), desc is SystemDescriptor) == (
                match r {
                    Ok(sel) => Some((sel@ / 8) as nat),
                    Err(_) => None::<nat>,
                },
                final(self).normal_count(),
                final(self).system_count(),
            ),
    {
        proof {
            use_type_invariant(&*self);
        }
        match desc {
            Descriptor::NormalDescriptor(n_desc) => {
                // make sure that the max limit is not violated
                if self.normal_desc_count >= 5 {
                    return Err(GdtError::NotEnoughGdtSpace);
                }
                let gdt_entry: u64 = n_desc.to_entry();
                let gdt_offset: usize = self.normal_desc_count as usize + self.system_desc_count as usize * 2;
                self.normal_desc_count = self.normal_desc_count + 1;
                self.descriptors[gdt_offset] = gdt_entry;
                Ok(SegmentSelector { selector: (gdt_offset * 8) as u16 })
            },
            Descriptor::SystemDescriptor(s_desc) => {
                // make sure that the max limit id not violated
                if self.system_desc_count >= 1 {
                    return Err(GdtError::NotEnoughGdtSpace);
                }
                let gdt_entry_lo = s_desc.normal_desc.to_entry();
                let gdt_entry_hi = s_desc.to_high_entry();
                let gdt_offset: usize = self.normal_desc_count as usize + self.system_desc_count as usize * 2;
                self.system_desc_count = self.system_desc_count + 1;
                self.descriptors[gdt_offset] = gdt_entry_lo;
                self.descriptors[gdt_offset + 1] = gdt_entry_hi;
                Ok(SegmentSelector { selector: (gdt_offset * 8) as u16 })
            },
        }
    }
}

/// What adding a descriptor (a system one when `system`) does to a table that holds `normal` normal
/// descriptors (the null one included) and `sys` system ones: the first entry it takes, if there is
/// room for it, and the two counts after.
pub open spec fn gdt_add(normal: nat, sys: nat, system: bool) -> (Option<nat>, nat, nat) {
    if system {
        if sys >= 1 {
            (None, normal, sys)
        } else {
            (Some(normal + 2 * sys), normal, sys + 1)
        }
    } else {
        if normal >= 5 {
            (None, normal, sys)
        } else {
            (Some(normal + 2 * sys), normal + 1, sys)
        }
    }
}

/// The two counts of a new table after the first `i` additions of `kinds` (`true` for a system descriptor).
pub open spec fn gdt_counts(kinds: Seq<bool>, i: int) -> (nat, nat)
    decreases i,
{
    if i <= 0 {
        (1, 0)
    } else {
        let c = gdt_counts(kinds, i - 1);
        let a = gdt_add(c.0, c.1, kinds[i - 1]);
        (a.1, a.2)
    }
}

/// The first entry that the `i`-th addition of `kinds` takes in a new table, if there is room for it.
pub open spec fn gdt_slot(kinds: Seq<bool>, i: int) -> Option<nat> {
    gdt_add(gdt_counts(kinds, i).0, gdt_counts(kinds, i).1, kinds[i]).0
}

/// How many of the first `i` additions of `kinds` are of the kind `system`.
pub open spec fn kind_count(kinds: Seq<bool>, i: int, system: bool) -> nat
    decreases i,
{
    if i <= 0 {
        0
    } else {
        kind_count(kinds, i - 1, system) + if kinds[i - 1] == system {
            1nat
        } else {
            0nat
        }
    }
}

/// How many entries a descriptor takes.
pub open spec fn gdt_width(system: bool) -> nat {
    if system {
        2
    } else {
        1
    }
}

/// The counts follow the kinds seen so far: the normal ones stop at 5, the system ones at 1.
proof fn lemma_gdt_counts(kinds: Seq<bool>, i: int)
    requires
        0 <= i <= kinds.len(),
    ensures
        gdt_counts(kinds, i).0 == 1 + if kind_count(kinds, i, false) < 4 { kind_count(kinds, i, false) } else { 4 },
        gdt_counts(kinds, i).1 == if kind_count(kinds, i, true) < 1 { kind_count(kinds, i, true) } else { 1 },
    decreases i,
{
    if i > 0 {
        lemma_gdt_counts(kinds, i - 1);
    }
}

/// The entries in use never go down, and each addition that fits takes the entries right after them.
proof fn lemma_gdt_used_grows(kinds: Seq<bool>, i: int, j: int)
    requires
        0 <= i <= j <= kinds.len(),
    ensures
        gdt_counts(kinds, i).0 + 2 * gdt_counts(kinds, i).1 <= gdt_counts(kinds, j).0 + 2 * gdt_counts(kinds, j).1,
    decreases j - i,
{
    if i < j {
        lemma_gdt_used_grows(kinds, i, j - 1);
    }
}

/// From a new table (the null descriptor only), over any sequence of additions: a normal descriptor
/// fits exactly while fewer than four normal ones were added before it, a system descriptor exactly
/// when none was added before it; the entries handed out lie within 1..=6, and those of two additions
/// (two entries for a system descriptor) never meet.
pub proof fn law_gdt_capacity(kinds: Seq<bool>)
    ensures
        forall|i: int| 0 <= i < kinds.len() && !kinds[i] ==> (#[trigger] gdt_slot(kinds, i) is Some <==> kind_count(kinds, i, false) < 4),
        forall|i: int| 0 <= i < kinds.len() && kinds[i] ==> (#[trigger] gdt_slot(kinds, i) is Some <==> kind_count(kinds, i, true) == 0),
        forall|i: int| 0 <= i < kinds.len() && #[trigger] gdt_slot(kinds, i) is Some ==> 1 <= gdt_slot(kinds, i)->0
            && gdt_slot(kinds, i)->0 + gdt_width(kinds[i]) <= 7,
        forall|i: int, j: int| 0 <= i < j < kinds.len() && #[trigger] gdt_slot(kinds, i) is Some && #[trigger] gdt_slot(kinds, j) is Some
            ==> gdt_slot(kinds, i)->0 + gdt_width(kinds[i]) <= gdt_slot(kinds, j)->0,
{
    assert forall|i: int| 0 <= i < kinds.len() implies {
        &&& (!kinds[i] ==> (#[trigger] gdt_slot(kinds, i) is Some <==> kind_count(kinds, i, false) < 4))
        &&& (kinds[i] ==> (gdt_slot(kinds, i) is Some <==> kind_count(kinds, i, true) == 0))
        &&& (gdt_slot(kinds, i) is Some ==> 1 <= gdt_slot(kinds, i)->0 && gdt_slot(kinds, i)->0 + gdt_width(kinds[i]) <= 7)
    } by {
        lemma_gdt_counts(kinds, i);
    }
    assert forall|i: int, j: int| 0 <= i < j < kinds.len() && #[trigger] gdt_slot(kinds, i) is Some && #[trigger] gdt_slot(kinds, j) is Some
        implies gdt_slot(kinds, i)->0 + gdt_width(kinds[i]) <= gdt_slot(kinds, j)->0 by {
        lemma_gdt_used_grows(kinds, i + 1, j);
    }
}

impl Default for GDT {
    fn default() -> (r: Self)
        ensures
            r.entries() == Seq::new(7, |i: int| 0u64),
            r.normal_count() == 1,
            r.system_count() == 0,
    {
        Self::new()
    }
}

/// The fields of a descriptor come back out of the GDT entry that holds it.
pub proof fn lemma_desc_entry_decode(
    limit_0: u16,
    base_0: u16,
    base_1: u8,
    access_byte: u8,
    limit_1_and_flags: u8,
    base_2: u8,
)
    ensures
        ({
            let e = desc_entry(limit_0, base_0, base_1, access_byte, limit_1_and_flags, base_2);
            &&& (e & 0xFFFF) as u16 == limit_0
            &&& ((e >> 16u64) & 0xFFFF) as u16 == base_0
            &&& ((e >> 32u64) & 0xFF) as u8 == base_1
            &&& ((e >> 40u64) & 0xFF) as u8 == access_byte
            &&& ((e >> 48u64) & 0xFF) as u8 == limit_1_and_flags
            &&& ((e >> 56u64) & 0xFF) as u8 == base_2
        }),
{
    let e = desc_entry(limit_0, base_0, base_1, access_byte, limit_1_and_flags, base_2);
    assert((e & 0xFFFF) as u16 == limit_0 && ((e >> 16u64) & 0xFFFF) as u16 == base_0 && ((e >> 32u64)
        & 0xFF) as u8 == base_1 && ((e >> 40u64) & 0xFF) as u8 == access_byte && ((e >> 48u64) & 0xFF)
        as u8 == limit_1_and_flags && ((e >> 56u64) & 0xFF) as u8 == base_2) by (bit_vector)
        requires
            e == (limit_0 as u64) | ((base_0 as u64) << 16u64) | ((base_1 as u64) << 32u64) | ((
            access_byte as u64) << 40u64) | ((limit_1_and_flags as u64) << 48u64) | ((base_2 as u64)
                << 56u64),
    ;
}

} // verus!
