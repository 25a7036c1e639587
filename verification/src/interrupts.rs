//! Interrupt descriptors, the IDT, the GDT and the TSS.
// https://wiki.osdev.org/Interrupt_Descriptor_Table
// https://wiki.osdev.org/Interrupts_Tutorial
use vstd::prelude::*;
use core::marker::PhantomData;
use crate::memory::VirtualAddress;

pub mod gdt;
pub mod tss;

verus! {

/// IO base address for master PIC
pub const PIC1: u16 = 0x20;
/// IO base address for slave PIC
pub const PIC2: u16 = 0xA0;
pub const PIC1_COMMAND: u16 = PIC1;
pub const PIC1_DATA: u16 = PIC1 + 1;
pub const PIC2_COMMAND: u16 = PIC2;
pub const PIC2_DATA: u16 = PIC2 + 1;

pub const GATE_TYPE_MASK: u8 = 0b0000_1111;
pub const DPL_LEVEL_MASK: u8 = 0b0110_0000;

/// The type of a gate.
pub enum GateType {
    /// 0b0000_1110: interrupts are disabled while the handler runs
    InterruptGate,
    /// 0b0000_1111
    TrapGate,
}

impl GateType {
    /// Type bits of this kind of gate.
    pub open spec fn spec_value(self) -> u8 {
        match self {
            GateType::InterruptGate => 0x0E,
            GateType::TrapGate => 0x0F,
        }
    }

    /// Type bits of this kind of gate.
    pub fn value(&self) -> (r: u8)
        ensures
            r == self.spec_value(),
    {
        match self {
            GateType::InterruptGate => 0x0E,
            GateType::TrapGate => 0x0F,
        }
    }
}

/// The privilege level needed to invoke an interrupt with `int`.
pub enum DplLevel {
    /// 0b0000_0000
    Ring0,
    /// 0b0010_0000
    Ring1,
    /// 0b0100_0000
    Ring2,
    /// 0b0110_0000
    Ring3,
}

impl DplLevel {
    /// The DPL bits, in place in the attributes byte.
    pub open spec fn spec_value(self) -> u8 {
        match self {
            DplLevel::Ring0 => 0x00,
            DplLevel::Ring1 => 0x20,
            DplLevel::Ring2 => 0x40,
            DplLevel::Ring3 => 0x60,
        }
    }

    /// The DPL bits, in place in the attributes byte.
    pub fn value(&self) -> (r: u8)
        ensures
            r == self.spec_value(),
    {
        match self {
            DplLevel::Ring0 => 0x00,
            DplLevel::Ring1 => 0x20,
            DplLevel::Ring2 => 0x40,
            DplLevel::Ring3 => 0x60,
        }
    }
}

// https://en.wikipedia.org/wiki/FLAGS_register
// https://wiki.osdev.org/CPU_Registers_x86-64#RFLAGS_Register
/// The RFLAGS register.
#[derive(Debug, Clone, Copy)]
pub struct RFLAGS(u64);

impl RFLAGS {
    pub const CARRY_FLAG: u64 = 0x1;
    pub const PARITY_FLAG: u64 = 0x4;
    pub const AUXILIARY_CARRY_FLAG: u64 = 0x10;
    pub const ZERO_FLAG: u64 = 0x40;
    pub const SIGN_FLAG: u64 = 0x80;
    pub const TRAP_FLAG: u64 = 0x100;
    pub const INTERRUPT_ENABLE_FLAG: u64 = 0x200;
    pub const DIRECTION_FLAG: u64 = 0x400;
    pub const OVERFLOW_FLAG: u64 = 0x800;
    pub const IO_PRIVILEGE_LEVEL_LO: u64 = 0x1000;
    pub const IO_PRIVILEGE_LEVEL_HI: u64 = 0x2000;
    pub const NESTED_TASK: u64 = 0x4000;
    pub const RESUME_FLAG: u64 = 0x1_0000;
    pub const VIRTUAL_8086_MODE: u64 = 0x2_0000;
    pub const ALIGNMENT_CHECK_ACCESS_CONTROL: u64 = 0x4_0000;
    pub const VIRTUAL_INTERRUPT_FLAG: u64 = 0x8_0000;
    pub const VIRTUAL_INTERRUPT_PENDING: u64 = 0x10_0000;
    pub const ID_FLAG: u64 = 0x20_0000;

    /// The register value `bits`, as the CPU pushed it.
    pub fn from_bits_retain(bits: u64) -> (r: RFLAGS)
        ensures
            r.bits_spec() == bits,
    {
        RFLAGS(bits)
    }

    pub closed spec fn bits_spec(&self) -> u64 {
        self.0
    }

    pub fn bits(&self) -> (r: u64)
        ensures
            r == self.bits_spec(),
    {
        self.0
    }
}

/// What the CPU pushes on the stack before calling an interrupt handler.
#[derive(Debug)]
pub struct InterruptArgs {
    pub instruction_pointer: VirtualAddress,
    pub code_segment: u16,
    pub rflags: RFLAGS,
    pub stack_pointer: VirtualAddress,
    pub stack_segment: u16,
}

/// A handler that can be installed in an interrupt descriptor.
pub trait InterruptFunc {
    /// The address of the handler's code.
    spec fn handler_addr(&self) -> VirtualAddress;

    /// The address of the handler's code.
    fn to_virt_addr(self) -> (r: VirtualAddress)
        ensures
            r == self.handler_addr(),
    ;
}

/// A handler of an interrupt that pushes no error code, given by the address of its code
/// (a function with the x86-interrupt calling convention).
#[derive(Clone, Copy)]
pub struct IntFunc(pub VirtualAddress);

/// A handler of an interrupt that pushes an error code, given by the address of its code
/// (a function with the x86-interrupt calling convention).
#[derive(Clone, Copy)]
pub struct IntFuncWithErr(pub VirtualAddress);

impl InterruptFunc for IntFunc {
    open spec fn handler_addr(&self) -> VirtualAddress {
        self.0
    }

    fn to_virt_addr(self) -> (r: VirtualAddress) {
        self.0
    }
}

impl InterruptFunc for IntFuncWithErr {
    open spec fn handler_addr(&self) -> VirtualAddress {
        self.0
    }

    fn to_virt_addr(self) -> (r: VirtualAddress) {
        self.0
    }
}

/// This represents en entry on the IDT.
// https://wiki.osdev.org/Interrupt_Descriptor_Table#Gate_Descriptor_2
pub struct InterruptDescriptor<F: InterruptFunc> {
    /// offset bits 0..15
    offset_1: u16,
    /// a code segment selector in GDT or LDT
    selector: u16,
    /// bits 0..2 holds Interrupt Stack Table offset, rest of bits zero.
    ist: u8,
    /// gate type, dpl, and p fields
    type_attrs: u8,
    /// offset bits 16..31
    offset_2: u16,
    /// offset bits 32..63
    offset_3: u32,
    /// reserved
    zero: u32,
    _func: PhantomData<F>,
}

impl<F: InterruptFunc> Clone for InterruptDescriptor<F> {
    fn clone(&self) -> (r: Self)
        ensures
            r == *self,
    {
        *self
    }
}

impl<F: InterruptFunc> Copy for InterruptDescriptor<F> {

}

/// The handler address that the three offset fields of a descriptor spell.
pub open spec fn desc_offset(offset_1: u16, offset_2: u16, offset_3: u32) -> u64 {
    (offset_1 as u64) | ((offset_2 as u64) << 16u64) | ((offset_3 as u64) << 32u64)
}

impl<F: InterruptFunc> InterruptDescriptor<F> {
    /// The handler address.
    pub closed spec fn offset(&self) -> u64 {
        desc_offset(self.offset_1, self.offset_2, self.offset_3)
    }

    /// Offset bits 0..15 of the handler, at the start of the descriptor.
    pub closed spec fn offset_low(&self) -> u16 {
        self.offset_1
    }

    /// Offset bits 16..31 of the handler, after the type and attributes.
    pub closed spec fn offset_mid(&self) -> u16 {
        self.offset_2
    }

    /// Offset bits 32..63 of the handler, before the reserved field.
    pub closed spec fn offset_high(&self) -> u32 {
        self.offset_3
    }

    /// The code segment selector.
    pub closed spec fn selector(&self) -> u16 {
        self.selector
    }

    /// The interrupt stack table byte.
    pub closed spec fn ist(&self) -> u8 {
        self.ist
    }

    /// Gate kind, DPL and present bit.
    pub closed spec fn type_attrs(&self) -> u8 {
        self.type_attrs
    }

    /// The reserved field.
    pub closed spec fn reserved(&self) -> u32 {
        self.zero
    }

    /// The descriptor that [InterruptDescriptor::new] builds.
    pub open spec fn is_default(&self) -> bool {
        &&& self.offset() == 0
        &&& self.selector() == 0x8
        &&& self.ist() == 0
        &&& self.type_attrs() == 0x0E
        &&& self.reserved() == 0
    }

    /// Creates a new `InterruptDescriptor` with the following defaults:
    ///   - The fn offset is 0
    ///   - The code segment selector is 0x8. This is the first entry in the GDT after the null descriptor
    ///   - IST is set to 0 so, the invocation uses the current stack
    ///   - Gate kind is interrupt so, interrups are disabled during handler invocation
    ///   - DPL is 0 so, only the kernel (ring 0) can invoque the fn
    ///   - PRESENT is 0
    pub fn new() -> (r: Self)
        ensures
            r.is_default(),
    {
        assert(desc_offset(0, 0, 0) == 0) by (bit_vector);
        InterruptDescriptor {
            offset_1: 0x0000,
            selector: 0x8,  // just use the basic code segment in the GDT
            ist: 0x00,  // always use the current stack
            type_attrs: 0x0E,  // interrupt gate
            offset_2: 0x0000,
            offset_3: 0x0000,
            zero: 0x00000000,
            _func: PhantomData,
        }
    }

    /// Sets the fn addr and the 'present' bit.
    pub fn set_fn(&mut self, func: F)
        ensures
            final(self).offset() == func.handler_addr(),
            final(self).offset_low() == func.handler_addr() & 0xFFFF,
            final(self).offset_mid() == (func.handler_addr() >> 16u64) & 0xFFFF,
            final(self).offset_high() == func.handler_addr() >> 32u64,
            final(self).type_attrs() == old(self).type_attrs() | 0x80,
            final(self).selector() == old(self).selector(),
            final(self).ist() == old(self).ist(),
            final(self).reserved() == old(self).reserved(),
    {
        let addr = func.to_virt_addr();
        self.offset_1 = ((addr >> 0u64) & 0xFFFF) as u16;
        self.offset_2 = ((addr >> 16u64) & 0xFFFF) as u16;
        self.offset_3 = ((addr >> 32u64) & 0xFFFFFFFF) as u32;
        let (o1, o2, o3) = (self.offset_1, self.offset_2, self.offset_3);
        assert(desc_offset(o1, o2, o3) == addr) by (bit_vector)
            requires
                o1 == ((addr >> 0u64) & 0xFFFF) as u16,
                o2 == ((addr >> 16u64) & 0xFFFF) as u16,
                o3 == ((addr >> 32u64) & 0xFFFFFFFF) as u32,
        ;
        proof {
            law_gate_offset_fields(*self);
        }
        // set the present flag
        self.type_attrs = self.type_attrs | 0b1000_0000;
    }

    /// Sets which kind of gate this is.
    pub fn set_gate_type(&mut self, gate_type: GateType)
        ensures
            final(self).type_attrs() == (old(self).type_attrs() & !GATE_TYPE_MASK) | gate_type.spec_value(),
            final(self).offset() == old(self).offset(),
            final(self).selector() == old(self).selector(),
            final(self).ist() == old(self).ist(),
    {
        self.type_attrs = (self.type_attrs & !GATE_TYPE_MASK) | gate_type.value();
    }

    /// Sets the DPL level.
    pub fn set_dpl_level(&mut self, dpl_level: DplLevel)
        ensures
            final(self).type_attrs() == (old(self).type_attrs() & !DPL_LEVEL_MASK) | dpl_level.spec_value(),
            final(self).offset() == old(self).offset(),
            final(self).selector() == old(self).selector(),
            final(self).ist() == old(self).ist(),
    {
        self.type_attrs = (self.type_attrs & !DPL_LEVEL_MASK) | dpl_level.value();
    }
}

/// The handler address that a gate holds is split over its three offset fields as the processor reads
/// them: bits 0..15 in the first field, bits 16..31 in the field at bytes 6 and 7, bits 32..63 in the
/// field at bytes 8 to 11.
pub proof fn law_gate_offset_fields<F: InterruptFunc>(d: InterruptDescriptor<F>)
    ensures
        d.offset_low() == d.offset() & 0xFFFF,
        d.offset_mid() == (d.offset() >> 16u64) & 0xFFFF,
        d.offset_high() == d.offset() >> 32u64,
{
    let (o1, o2, o3) = (d.offset_low(), d.offset_mid(), d.offset_high());
    let a = d.offset();
    assert(a == (o1 as u64) | ((o2 as u64) << 16u64) | ((o3 as u64) << 32u64));
    assert(o1 == a & 0xFFFF && o2 == (a >> 16u64) & 0xFFFF && o3 == a >> 32u64) by (bit_vector)
        requires
            a == (o1 as u64) | ((o2 as u64) << 16u64) | ((o3 as u64) << 32u64),
    ;
}

/// Setting a gate kind leaves the present bit and the DPL as they were and gives the new type.
pub proof fn lemma_gate_type_bits(attrs: u8, value: u8)
    requires
        value == 0x0E || value == 0x0F,
    ensures
        ((attrs & !GATE_TYPE_MASK) | value) & GATE_TYPE_MASK == value,
        ((attrs & !GATE_TYPE_MASK) | value) & 0xF0 == attrs & 0xF0,
{
    assert(((attrs & !0x0Fu8) | value) & 0x0Fu8 == value && ((attrs & !0x0Fu8) | value) & 0xF0u8 == attrs
        & 0xF0u8) by (bit_vector)
        requires
            value == 0x0E || value == 0x0F,
    ;
}

/// The Interrupt Descriptor Table: 32 exception entries and 224 external interrupts.
pub struct InterruptDescriptorTable {
    pub divide_error: InterruptDescriptor<IntFunc>,
    pub debug_exception: InterruptDescriptor<IntFunc>,
    pub non_maskable_interrupt: InterruptDescriptor<IntFunc>,
    pub breakpoint: InterruptDescriptor<IntFunc>,
    pub overflow: InterruptDescriptor<IntFunc>,
    pub bound_range_exceeded: InterruptDescriptor<IntFunc>,
    pub invalid_opcode: InterruptDescriptor<IntFunc>,
    pub device_not_available: InterruptDescriptor<IntFunc>,
    pub double_fault: InterruptDescriptor<IntFuncWithErr>,
    /// reserved
    pub coprocessor_segment_overrun: InterruptDescriptor<IntFunc>,
    pub invalid_tss: InterruptDescriptor<IntFuncWithErr>,
    pub segment_not_present: InterruptDescriptor<IntFuncWithErr>,
    pub stack_segment_fault: InterruptDescriptor<IntFuncWithErr>,
    pub general_protection: InterruptDescriptor<IntFuncWithErr>,
    pub page_fault: InterruptDescriptor<IntFuncWithErr>,
    /// reserved
    pub intel_reserved: InterruptDescriptor<IntFunc>,
    pub x87_fp_error: InterruptDescriptor<IntFunc>,
    pub alignment_check: InterruptDescriptor<IntFuncWithErr>,
    pub machine_check: InterruptDescriptor<IntFunc>,
    pub simd_fp_exception: InterruptDescriptor<IntFunc>,
    pub virtualization_exception: InterruptDescriptor<IntFunc>,
    pub control_protection_exception: InterruptDescriptor<IntFuncWithErr>,
    /// reserved
    pub reserved_for_future_use: [InterruptDescriptor<IntFunc>; 10],
    /// external interrupts (PIC/APIC)
    pub interrupt: [InterruptDescriptor<IntFunc>; 224],
}

impl InterruptDescriptorTable {
    /// Every entry of the table is a default descriptor.
    pub open spec fn all_default(&self) -> bool {
        &&& self.divide_error.is_default()
        &&& self.debug_exception.is_default()
        &&& self.non_maskable_interrupt.is_default()
        &&& self.breakpoint.is_default()
        &&& self.overflow.is_default()
        &&& self.bound_range_exceeded.is_default()
        &&& self.invalid_opcode.is_default()
        &&& self.device_not_available.is_default()
        &&& self.double_fault.is_default()
        &&& self.coprocessor_segment_overrun.is_default()
        &&& self.invalid_tss.is_default()
        &&& self.segment_not_present.is_default()
        &&& self.stack_segment_fault.is_default()
        &&& self.general_protection.is_default()
        &&& self.page_fault.is_default()
        &&& self.intel_reserved.is_default()
        &&& self.x87_fp_error.is_default()
        &&& self.alignment_check.is_default()
        &&& self.machine_check.is_default()
        &&& self.simd_fp_exception.is_default()
        &&& self.virtualization_exception.is_default()
        &&& self.control_protection_exception.is_default()
        &&& forall|i: int| 0 <= i < 10 ==> (#[trigger] self.reserved_for_future_use@[i]).is_default()
        &&& forall|i: int| 0 <= i < 224 ==> (#[trigger] self.interrupt@[i]).is_default()
    }

    /// Creates a new `InterruptDescriptorTable` where every entry is comes from [`InterruptDescriptor::new`].
    pub fn new() -> (r: Self)
        ensures
            r.all_default(),
    {
        let d = InterruptDescriptor::<IntFunc>::new();
        let reserved_for_future_use = [d; 10];
        let interrupt = [d; 224];
        assert(forall|i: int| 0 <= i < 10 ==> reserved_for_future_use@[i] == d);
        assert(forall|i: int| 0 <= i < 224 ==> interrupt@[i] == d);
        InterruptDescriptorTable {
            divide_error: InterruptDescriptor::new(),
            debug_exception: InterruptDescriptor::new(),
            non_maskable_interrupt: InterruptDescriptor::new(),
            breakpoint: InterruptDescriptor::new(),
            overflow: InterruptDescriptor::new(),
            bound_range_exceeded: InterruptDescriptor::new(),
            invalid_opcode: InterruptDescriptor::new(),
            device_not_available: InterruptDescriptor::new(),
            double_fault: InterruptDescriptor::new(),
            coprocessor_segment_overrun: InterruptDescriptor::new(),  // reserved
            invalid_tss: InterruptDescriptor::new(),
            segment_not_present: InterruptDescriptor::new(),
            stack_segment_fault: InterruptDescriptor::new(),
            general_protection: InterruptDescriptor::new(),
            page_fault: InterruptDescriptor::new(),
            intel_reserved: InterruptDescriptor::new(),  // reserved
            x87_fp_error: InterruptDescriptor::new(),
            alignment_check: InterruptDescriptor::new(),
            machine_check: InterruptDescriptor::new(),
            simd_fp_exception: InterruptDescriptor::new(),
            virtualization_exception: InterruptDescriptor::new(),
            control_protection_exception: InterruptDescriptor::new(),
            reserved_for_future_use,  // reserved
            interrupt,  // external interrupts (PIC/APIC)
        }
    }
}

} // verus!
