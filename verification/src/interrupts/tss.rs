//! The Task State Segment.
// https://wiki.osdev.org/Task_State_Segment
use vstd::prelude::*;
use crate::memory::{MemoryError, VirtualAddress, FRAME_PAGE_SIZE};

verus! {

// https://wiki.osdev.org/Task_State_Segment#Long_Mode
/// The 64 bit TSS, plus the bookkeeping of the interrupt stacks it points to.
pub struct TSS {
    reserved_0: u32,
    rsp0: VirtualAddress,
    rsp1: VirtualAddress,
    rsp2: VirtualAddress,
    reserved_1: u32,
    reserved_2: u32,
    ist: [VirtualAddress; 7],
    reserved_3: u32,
    reserved_4: u32,
    reserved_5: u16,
    iopb: u16,
    // this is not part of the structure but it is needed as metadata fot managing heap allocated stacks
    // this holds the size (in bytes) for each of the currently allocated stacks and if they used a page guard
    previous_stack: [(u64, bool); 7],
}

/// The TSS always has a constant size.
pub const TSS_SIZE: u32 = 0x68;

/// One of the 7 interrupt stacks of the TSS.
#[derive(Clone, Copy)]
pub enum TssStackNumber {
    TssStack1,
    TssStack2,
    TssStack3,
    TssStack4,
    TssStack5,
    TssStack6,
    TssStack7,
}

impl TssStackNumber {
    /// The position of the stack in the IST (0 to 6).
    pub open spec fn spec_index(self) -> int {
        match self {
            TssStackNumber::TssStack1 => 0,
            TssStackNumber::TssStack2 => 1,
            TssStackNumber::TssStack3 => 2,
            TssStackNumber::TssStack4 => 3,
            TssStackNumber::TssStack5 => 4,
            TssStackNumber::TssStack6 => 5,
            TssStackNumber::TssStack7 => 6,
        }
    }

    /// The position of the stack in the IST (0 to 6).
    pub fn index(&self) -> (r: usize)
        ensures
            r == self.spec_index(),
            r < 7,
    {
        match self {
            TssStackNumber::TssStack1 => 0,
            TssStackNumber::TssStack2 => 1,
            TssStackNumber::TssStack3 => 2,
            TssStackNumber::TssStack4 => 3,
            TssStackNumber::TssStack5 => 4,
            TssStackNumber::TssStack6 => 5,
            TssStackNumber::TssStack7 => 6,
        }
    }
}

#[derive(Debug, PartialEq, Eq, Structural)]
pub enum TssError {
    PageCountIsZero,
    Memory(MemoryError),
}

impl TSS {
    /// A recorded stack ends at its IST entry: its first address is not below 0.
    #[verifier::type_invariant]
    spec fn inv(self) -> bool {
        forall|n: int| 0 <= n < 7 ==> #[trigger] self.ist@[n] != 0 ==> 1 <= self.previous_stack@[n].0 <= self.ist@[n] + 1
    }

    /// The interrupt stack table: the top address of each stack (0 when there is none).
    pub closed spec fn ist_view(&self) -> Seq<u64> {
        self.ist@
    }

    /// The size and the guard page use of each stack.
    pub closed spec fn stacks_view(&self) -> Seq<(u64, bool)> {
        self.previous_stack@
    }

    /// The privilege level stack pointers and the other fields, all of which `new` zeroes.
    pub closed spec fn other_fields_zero(&self) -> bool {
        &&& self.reserved_0 == 0
        &&& self.rsp0 == 0
        &&& self.rsp1 == 0
        &&& self.rsp2 == 0
        &&& self.reserved_1 == 0
        &&& self.reserved_2 == 0
        &&& self.reserved_3 == 0
        &&& self.reserved_4 == 0
        &&& self.reserved_5 == 0
        &&& self.iopb == 0
    }

    /// Creates a new, completly zeroed out, TSS struct.
    pub fn new() -> (r: Self)
        ensures
            r.ist_view() == Seq::new(7, |i: int| 0u64),
            r.stacks_view() == Seq::new(7, |i: int| (0u64, false)),
            r.other_fields_zero(),
    {
        let r = TSS {
            reserved_0: 0,
            rsp0: 0,
            rsp1: 0,
            rsp2: 0,
            reserved_1: 0,
            reserved_2: 0,
            ist: [0, 0, 0, 0, 0, 0, 0],
            reserved_3: 0,
            reserved_4: 0,
            reserved_5: 0,
            iopb: 0,
            previous_stack: [(0, false), (0, false), (0, false), (0, false), (0, false), (0, false), (0, false)],
        };
        assert(r.ist@ =~= Seq::new(7, |i: int| 0u64));
        assert(r.previous_stack@ =~= Seq::new(7, |i: int| (0u64, false)));
        r
    }

    /// The top address of interrupt stack `stack_number` (0 when there is none).
    pub fn ist(&self, stack_number: TssStackNumber) -> (r: VirtualAddress)
        ensures
            r == self.ist_view()[stack_number.spec_index()],
            self.ist_view().len() == 7,
            self.stacks_view().len() == 7,
    {
        self.ist[stack_number.index()]
    }

    /// The size in bytes of interrupt stack `stack_number` and whether it has a guard page.
    pub fn previous_stack(&self, stack_number: TssStackNumber) -> (r: (u64, bool))
        ensures
            r == self.stacks_view()[stack_number.spec_index()],
            self.ist_view().len() == 7,
            self.stacks_view().len() == 7,
    {
        self.previous_stack[stack_number.index()]
    }

    /// The size in bytes of a stack of `page_count` pages, plus a guard page if `use_guard_page`.
    /// A stack needs at least 1 page: `page_count` 0 gives `Err(TssError::PageCountIsZero)`.
    pub fn stack_size(page_count: u8, use_guard_page: bool) -> (r: Result<u64, TssError>)
        ensures
            page_count == 0 ==> r == Err::<u64, TssError>(TssError::PageCountIsZero),
            page_count != 0 ==> r == Ok::<u64, TssError>(
                ((page_count + (if use_guard_page { 1int } else { 0int })) * FRAME_PAGE_SIZE) as u64,
            ),
    {
        // minimum 1 page for the stack
        if page_count == 0 {
            return Err(TssError::PageCountIsZero);
        }
        // this is a u16 to avoid overflows
        let real_page_count: u16 = page_count as u16 + if use_guard_page { 1u16 } else { 0u16 };
        Ok(real_page_count as u64 * FRAME_PAGE_SIZE)
    }

    /// Records a stack of `size` bytes starting at `stack` as interrupt stack `stack_number`:
    /// in x86_64 the stack grows downwards so the IST entry points to its last byte.
    pub fn set_stack(&mut self, stack_number: TssStackNumber, stack: VirtualAddress, size: u64, use_guard_page: bool)
        requires
            size >= 1,
            stack + size - 1 <= u64::MAX,
        ensures
            final(self).ist_view() == old(self).ist_view().update(stack_number.spec_index(), (stack + size - 1) as u64),
            final(self).stacks_view() == old(self).stacks_view().update(stack_number.spec_index(), (size, use_guard_page)),
            old(self).ist_view().len() == 7,
            old(self).stacks_view().len() == 7,
    {
        proof {
            use_type_invariant(&*self);
        }
        let n = stack_number.index();
        self.ist[n] = 0;
        self.previous_stack[n] = (size, use_guard_page);
        self.ist[n] = stack + (size - 1);
        assert(self.ist@ =~= old(self).ist@.update(n as int, (stack + size - 1) as u64));
        assert(self.previous_stack@ =~= old(self).previous_stack@.update(n as int, (size, use_guard_page)));
    }

    /// The stack recorded as interrupt stack `stack_number`, which must be freed before a new one takes
    /// its place: its first address, its size in bytes, and whether it used a guard page (which must be
    /// mapped again before the stack memory is given back). `None` when there is no stack.
    pub fn recorded_stack(&self, stack_number: TssStackNumber) -> (r: Option<(VirtualAddress, u64, bool)>)
        ensures
            ({
                let n = stack_number.spec_index();
                let top = self.ist_view()[n];
                let (size, guard) = self.stacks_view()[n];
                if top == 0 {
                    r is None
                } else {
                    r == Some(((top + 1 - size) as u64, size, guard)) && 1 <= size <= top + 1
                }
            }),
    {
        proof {
            use_type_invariant(self);
        }
        let n = stack_number.index();
        let top = self.ist[n];
        if top == 0 {
            return None;
        }
        let (size, guard) = self.previous_stack[n];
        assert(self.ist@[n as int] != 0);
        Some((top - (size - 1), size, guard))
    }
}

impl Default for TSS {
    fn default() -> (r: Self)
        ensures
            r.ist_view() == Seq::new(7, |i: int| 0u64),
            r.stacks_view() == Seq::new(7, |i: int| (0u64, false)),
    {
        Self::new()
    }
}

} // verus!
