use rsos::interrupts::{DplLevel, GateType, RFLAGS};
use rsos::interrupts::gdt::{
    Descriptor, GdtError, NormalDescAccessByte, NormalDescAccessByteArgs, NormalSegmentDescriptor, SegmentDescriptor, SegmentFlags,
    SystemDescAccessByte, SystemDescAccessByteArgs, SystemDescAccessByteType, SystemSegmentDescriptor, GDT,
};
use rsos::interrupts::tss::{TssError, TssStackNumber, TSS};

fn kernel_code() -> NormalSegmentDescriptor {
    let mut d = NormalSegmentDescriptor::new();
    d.set_limit(0xFFFFF);
    d.set_access_byte(NormalDescAccessByteArgs::new(NormalDescAccessByte::from_bits_truncate(
        NormalDescAccessByte::PRESENT | NormalDescAccessByte::IS_CODE_OR_DATA | NormalDescAccessByte::EXECUTABLE
            | NormalDescAccessByte::RW,
    )));
    d.set_flags(SegmentFlags::from_bits_truncate(SegmentFlags::GRANULARITY | SegmentFlags::LONG_MODE_CODE));
    d
}

#[test]
fn gdt_starts_with_the_null_descriptor() {
    let gdt = GDT::new();
    let (entries, used) = gdt.descriptors();
    assert_eq!(used, 1);
    assert_eq!(entries[0], 0);
}

#[test]
fn gdt_normal_descriptor_encoding() {
    let mut gdt = GDT::new();
    let code = kernel_code();
    let sel = gdt.new_descriptor(Descriptor::NormalDescriptor(&code)).ok().unwrap();
    assert_eq!(sel.as_u16(), 8);
    let (entries, used) = gdt.descriptors();
    assert_eq!(used, 2);
    assert_eq!(entries[1], 0x00AF_9A00_0000_FFFF);
}

#[test]
fn gdt_holds_at_most_five_normal_descriptors() {
    let mut gdt = GDT::new();
    let code = kernel_code();
    for i in 1..5u16 {
        assert_eq!(gdt.new_descriptor(Descriptor::NormalDescriptor(&code)).ok().unwrap().as_u16(), i * 8);
    }
    assert!(matches!(gdt.new_descriptor(Descriptor::NormalDescriptor(&code)), Err(GdtError::NotEnoughGdtSpace)));
}

#[test]
fn gdt_system_descriptor_takes_two_entries() {
    let mut gdt = GDT::new();
    let mut tss_desc = SystemSegmentDescriptor::new();
    tss_desc.set_base(0xffff_8000_1234_5678);
    tss_desc.set_limit(0x67);
    tss_desc.set_access_byte(SystemDescAccessByteArgs::new(
        SystemDescAccessByte::from_bits_truncate(SystemDescAccessByte::PRESENT),
        SystemDescAccessByteType::TssAvailable64bit,
    ));
    let sel = gdt.new_descriptor(Descriptor::SystemDescriptor(&tss_desc)).ok().unwrap();
    assert_eq!(sel.as_u16(), 8);
    let (entries, used) = gdt.descriptors();
    assert_eq!(used, 3);
    assert_eq!(entries[1], 0x1200_8934_5678_0067);
    assert_eq!(entries[2], 0xffff_8000);
    assert!(matches!(gdt.new_descriptor(Descriptor::SystemDescriptor(&tss_desc)), Err(GdtError::NotEnoughGdtSpace)));
    // normal descriptors go after the system descriptor
    let code = kernel_code();
    assert_eq!(gdt.new_descriptor(Descriptor::NormalDescriptor(&code)).ok().unwrap().as_u16(), 24);
}

#[test]
fn system_access_byte_type_values() {
    assert_eq!(SystemDescAccessByteType::LDT.value(), 0x2);
    assert_eq!(SystemDescAccessByteType::TssAvailable64bit.value(), 0x9);
    assert_eq!(SystemDescAccessByteType::TssBusy64bit.value(), 0xB);
}

#[test]
fn gate_and_dpl_values() {
    assert_eq!(GateType::InterruptGate.value(), 0b0000_1110);
    assert_eq!(GateType::TrapGate.value(), 0b0000_1111);
    assert_eq!(DplLevel::Ring0.value(), 0);
    assert_eq!(DplLevel::Ring1.value(), 0b0010_0000);
    assert_eq!(DplLevel::Ring3.value(), 0b0110_0000);
}

#[test]
fn rflags_bits() {
    let f = RFLAGS::from_bits_retain(RFLAGS::INTERRUPT_ENABLE_FLAG | RFLAGS::ZERO_FLAG);
    assert_eq!(f.bits(), 0x240);
}

#[test]
fn tss_stack_sizes() {
    assert!(matches!(TSS::stack_size(0, true), Err(TssError::PageCountIsZero)));
    assert!(matches!(TSS::stack_size(2, false), Ok(0x2000)));
    assert!(matches!(TSS::stack_size(2, true), Ok(0x3000)));
    assert!(matches!(TSS::stack_size(255, true), Ok(0x10_0000)));
}

#[test]
fn tss_stack_points_to_its_last_byte() {
    let mut tss = TSS::new();
    assert_eq!(tss.ist(TssStackNumber::TssStack1), 0);
    tss.set_stack(TssStackNumber::TssStack1, 0xffff_8000_0000_0000, 0x3000, true);
    assert_eq!(tss.ist(TssStackNumber::TssStack1), 0xffff_8000_0000_2fff);
    assert_eq!(tss.previous_stack(TssStackNumber::TssStack1), (0x3000, true));
    assert_eq!(tss.ist(TssStackNumber::TssStack2), 0);
    assert_eq!(tss.previous_stack(TssStackNumber::TssStack7), (0, false));
}

#[test]
fn tss_recorded_stack_gives_the_region_to_free() {
    let mut tss = TSS::new();
    assert_eq!(tss.recorded_stack(TssStackNumber::TssStack3), None);
    tss.set_stack(TssStackNumber::TssStack3, 0xffff_8000_0001_0000, 0x2000, false);
    assert_eq!(tss.recorded_stack(TssStackNumber::TssStack3), Some((0xffff_8000_0001_0000, 0x2000, false)));
    assert_eq!(tss.recorded_stack(TssStackNumber::TssStack1), None);
}
