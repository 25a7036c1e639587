//! A frame allocator that walks the memory map frame after frame and never takes a frame back.
use vstd::prelude::*;
use crate::memory::{lemma_frame_page_size_power_of_two, MemoryError, PhysicalAddress, ProhibitedMemoryRange, FRAME_PAGE_SIZE};
use crate::memory::frames::Frame;
use crate::multiboot2::memory_map::{
    aligned_base_spec, aligned_length_spec, entry_in_range, entry_type_of, MemoryMapEntries, MemoryMapEntry, MemoryMapEntryType,
};

verus! {

/// The first frame of area `e` (its base rounded up to a frame).
pub open spec fn first_frame(e: MemoryMapEntry) -> int {
    aligned_base_spec(e, FRAME_PAGE_SIZE) / FRAME_PAGE_SIZE as int
}

/// The frame right after the last whole frame of area `e`.
pub open spec fn end_frame(e: MemoryMapEntry) -> int {
    (aligned_base_spec(e, FRAME_PAGE_SIZE) + aligned_length_spec(e, FRAME_PAGE_SIZE)) / FRAME_PAGE_SIZE as int
}

/// Area `e` is available RAM with at least one whole frame.
pub open spec fn usable_area(e: MemoryMapEntry) -> bool {
    entry_type_of(e.entry_type) == MemoryMapEntryType::AvailableRAM && aligned_length_spec(e, FRAME_PAGE_SIZE) != 0
}

/// Every area of `areas` lies far enough below the top of the address space.
pub open spec fn all_in_range(areas: Seq<MemoryMapEntry>) -> bool {
    forall|k: int| 0 <= k < areas.len() ==> entry_in_range(#[trigger] areas[k], FRAME_PAGE_SIZE)
}

/// The index of the first usable area from `from` on, or `areas.len()` (or `from`) if there is none.
pub open spec fn next_usable(areas: Seq<MemoryMapEntry>, from: int) -> int
    decreases areas.len() - from,
{
    if from < 0 || from >= areas.len() {
        from
    } else if usable_area(areas[from]) {
        from
    } else {
        next_usable(areas, from + 1)
    }
}

/// The walk is inside area `cur`: at one of its whole frames.
pub open spec fn walk_wf(areas: Seq<MemoryMapEntry>, cur: int, next: int) -> bool {
    &&& 0 <= cur < areas.len()
    &&& first_frame(areas[cur]) <= next < end_frame(areas[cur])
}

/// One step of the walk from frame `next` of area `cur`: the frame after it in the same area, or, from
/// the area's last frame, the first frame of the next usable area. The result is the new area, the new
/// frame and whether there was one (if not, the area is past the last one and the frame stays).
pub open spec fn step(areas: Seq<MemoryMapEntry>, cur: int, next: int) -> (int, int, bool) {
    if next + 1 == end_frame(areas[cur]) {
        let j = next_usable(areas, cur + 1);
        if j >= areas.len() {
            (j, next, false)
        } else {
            (j, first_frame(areas[j]), true)
        }
    } else {
        (cur, next + 1, true)
    }
}

/// Frame `f` lies in one of the prohibited ranges.
pub open spec fn frame_used(ranges: Seq<ProhibitedMemoryRange>, f: int) -> bool {
    exists|k: int| 0 <= k < ranges.len() && (#[trigger] ranges[k]).contains(f * FRAME_PAGE_SIZE)
}

/// The next usable area from `from` on is at or after `from`, and usable if it is in the list.
pub proof fn lemma_next_usable(areas: Seq<MemoryMapEntry>, from: int)
    requires
        0 <= from,
    ensures
        next_usable(areas, from) >= from,
        next_usable(areas, from) < areas.len() ==> usable_area(areas[next_usable(areas, from)]),
        forall|j: int| from <= j < next_usable(areas, from) && j < areas.len() ==> !usable_area(#[trigger] areas[j]),
    decreases areas.len() - from,
{
    if from < areas.len() && !usable_area(areas[from]) {
        lemma_next_usable(areas, from + 1);
    }
}

/// An area's first frame is not after its end frame, and a usable one has a frame.
proof fn lemma_area_frames(e: MemoryMapEntry)
    ensures
        first_frame(e) <= end_frame(e),
        aligned_length_spec(e, FRAME_PAGE_SIZE) != 0 ==> first_frame(e) < end_frame(e),
        aligned_length_spec(e, FRAME_PAGE_SIZE) >= FRAME_PAGE_SIZE ==> first_frame(e) < end_frame(e),
{
    let b = aligned_base_spec(e, FRAME_PAGE_SIZE);
    let l = aligned_length_spec(e, FRAME_PAGE_SIZE);
    assert(b % 4096 == 0 && b >= 0) by {
        vstd::arithmetic::div_mod::lemma_fundamental_div_mod(e.base_addr as int, 4096);
        if e.base_addr % 4096 != 0 {
            vstd::arithmetic::div_mod::lemma_mod_multiples_vanish(e.base_addr / 4096 + 1, 0, 4096);
            assert(b == 4096 * (e.base_addr / 4096 + 1));
        } else {
            assert(b == e.base_addr);
        }
    }
    assert(l % 4096 == 0 && l >= 0) by {
        let x = e.base_addr + e.length;
        vstd::arithmetic::div_mod::lemma_fundamental_div_mod(x, 4096);
        vstd::arithmetic::div_mod::lemma_fundamental_div_mod(e.base_addr as int, 4096);
        let end = x - x % 4096;
        if end > b {
            assert(end % 4096 == 0) by {
                vstd::arithmetic::div_mod::lemma_mod_multiples_vanish(x / 4096, 0, 4096);
            }
            vstd::arithmetic::div_mod::lemma_sub_mod_noop(end, b, 4096);
        }
    }
    vstd::arithmetic::div_mod::lemma_div_is_ordered(b, b + l, 4096);
    if l != 0 {
        vstd::arithmetic::div_mod::lemma_fundamental_div_mod(b, 4096);
        vstd::arithmetic::div_mod::lemma_fundamental_div_mod(l, 4096);
        assert(b + l == 4096 * (b / 4096 + l / 4096));
        vstd::arithmetic::div_mod::lemma_div_multiples_vanish(b / 4096 + l / 4096, 4096);
        vstd::arithmetic::div_mod::lemma_div_multiples_vanish(b / 4096, 4096);
    }
}

/// The walk from `(cur, next)` skipping prohibited frames: the area and frame where it stops, and whether
/// it found a frame outside the prohibited ranges (if not, it ran out of areas).
pub open spec fn free_walk(areas: Seq<MemoryMapEntry>, ranges: Seq<ProhibitedMemoryRange>, cur: int, next: int) -> (int, int, bool)
    decreases areas.len() - cur, end_frame(areas[cur]) - next,
    when walk_wf(areas, cur, next)
{
    let st = step(areas, cur, next);
    proof {
        lemma_next_usable(areas, cur + 1);
    }
    if !st.2 {
        st
    } else if frame_used(ranges, st.1) {
        free_walk(areas, ranges, st.0, st.1)
    } else {
        st
    }
}

/// A step keeps the walk inside an area.
proof fn lemma_step_wf(areas: Seq<MemoryMapEntry>, cur: int, next: int)
    requires
        walk_wf(areas, cur, next),
    ensures
        step(areas, cur, next).2 ==> walk_wf(areas, step(areas, cur, next).0, step(areas, cur, next).1),
        step(areas, cur, next).0 > cur || (step(areas, cur, next).0 == cur && step(areas, cur, next).1 == next + 1),
{
    lemma_next_usable(areas, cur + 1);
    if next + 1 == end_frame(areas[cur]) {
        lemma_area_frames(areas[next_usable(areas, cur + 1)]);
    }
}

/// The frame after an area's last whole frame still has an address.
proof fn lemma_end_frame_addr(e: MemoryMapEntry)
    requires
        entry_in_range(e, FRAME_PAGE_SIZE),
    ensures
        end_frame(e) * FRAME_PAGE_SIZE <= u64::MAX,
        first_frame(e) >= 0,
{
    let b = aligned_base_spec(e, FRAME_PAGE_SIZE);
    let l = aligned_length_spec(e, FRAME_PAGE_SIZE);
    vstd::arithmetic::div_mod::lemma_fundamental_div_mod(e.base_addr as int, 4096);
    vstd::arithmetic::div_mod::lemma_fundamental_div_mod((e.base_addr + e.length) as int, 4096);
    assert(b + l <= e.base_addr + e.length + 4096);
    vstd::arithmetic::div_mod::lemma_fundamental_div_mod(b + l, 4096);
    assert(end_frame(e) * 4096 <= b + l) by {
        vstd::arithmetic::mul::lemma_mul_is_commutative(4096, (b + l) / 4096);
    }
    vstd::arithmetic::div_mod::lemma_div_pos_is_pos(b, 4096);
}

/// The frame allocator's state.
pub struct SimpleFrameAllocator {
    // available areas
    areas: Option<MemoryMapEntries>,
    current_area: usize,
    // next frame to be used
    next_frame: u64,
    // memory ranges that we need to avoid using so we don't override important memory
    kernel_prohibited_memory_ranges: Vec<ProhibitedMemoryRange>,
    initialized: bool,
}

impl SimpleFrameAllocator {
    /// The memory map areas that the allocator walks (none before initialization).
    pub closed spec fn areas(&self) -> Seq<MemoryMapEntry> {
        match self.areas {
            Some(e) => e.0@,
            None => Seq::empty(),
        }
    }

    /// The index of the area the walk is in.
    pub closed spec fn current_area(&self) -> int {
        self.current_area as int
    }

    /// The frame that the next allocation hands out.
    pub closed spec fn next_frame(&self) -> int {
        self.next_frame as int
    }

    /// The prohibited ranges.
    pub closed spec fn ranges(&self) -> Seq<ProhibitedMemoryRange> {
        self.kernel_prohibited_memory_ranges@
    }

    /// The allocator was initialized.
    pub closed spec fn is_initialized(&self) -> bool {
        self.initialized
    }

    /// An initialized allocator walks inside an area, and its next frame is outside the prohibited ranges.
    pub closed spec fn wf(&self) -> bool {
        self.initialized ==> {
            &&& self.areas is Some
            &&& all_in_range(self.areas())
            &&& walk_wf(self.areas(), self.current_area as int, self.next_frame as int)
            &&& !frame_used(self.ranges(), self.next_frame as int)
        }
    }

    /// An allocator to be initialized.
    pub fn new() -> (r: Self)
        ensures
            r.wf(),
            !r.is_initialized(),
            r.areas().len() == 0,
            r.current_area() == 0,
            r.next_frame() == 0,
            r.ranges().len() == 0,
    {
        SimpleFrameAllocator {
            areas: None,
            current_area: 0,
            next_frame: 0,
            kernel_prohibited_memory_ranges: Vec::new(),
            initialized: false,
        }
    }

    /// Sets the allocator up on the memory map `mem_map` (`None`: the boot information has none) and the
    /// ranges it must never hand out.
    ///
    /// The walk starts at the first frame of the first area of available RAM with a whole frame, and
    /// skips to the next frame outside the prohibited ranges if that frame is in one.
    pub fn init(&mut self, mem_map: Option<MemoryMapEntries>, prohibited: &[ProhibitedMemoryRange]) -> (r: Result<(), MemoryError>)
        requires
            !old(self).is_initialized(),
            mem_map matches Some(e) ==> all_in_range(e.0@),
        ensures
            final(self).wf(),
            match mem_map {
                None => r == Err::<(), MemoryError>(MemoryError::MemoryMapMbTagDoesNotExist) && !final(self).is_initialized(),
                Some(e) => {
                    let k = next_usable(e.0@, 0);
                    if k >= e.0@.len() {
                        r == Err::<(), MemoryError>(MemoryError::NotEnoughPhyMemory) && !final(self).is_initialized()
                    } else {
                        let n0 = first_frame(e.0@[k]);
                        let res = if frame_used(prohibited@, n0) {
                            free_walk(e.0@, prohibited@, k, n0)
                        } else {
                            (k, n0, true)
                        };
                        &&& final(self).areas() == e.0@
                        &&& final(self).ranges() == prohibited@
                        &&& final(self).current_area() == res.0
                        &&& final(self).next_frame() == res.1
                        &&& (r is Ok <==> res.2)
                        &&& (final(self).is_initialized() <==> res.2)
                        &&& r is Err ==> r == Err::<(), MemoryError>(MemoryError::NotEnoughPhyMemory)
                    }
                },
            },
    {
        let mem_map_entries = match mem_map {
            Some(e) => e,
            None => {
                return Err(MemoryError::MemoryMapMbTagDoesNotExist);
            },
        };
        let ghost ents = mem_map_entries.0@;
        let len = mem_map_entries.0.len();
        let mut ranges: Vec<ProhibitedMemoryRange> = Vec::new();
        let mut i: usize = 0;
        while i < prohibited.len()
            invariant
                i <= prohibited@.len(),
                ranges@ == prohibited@.take(i as int),
            decreases prohibited@.len() - i,
        {
            ranges.push(prohibited[i]);
            i = i + 1;
            proof {
                assert(ranges@ =~= prohibited@.take(i as int));
            }
        }
        proof {
            assert(ranges@ =~= prohibited@);
            lemma_next_usable(ents, 0);
        }
        self.areas = Some(mem_map_entries);
        self.kernel_prohibited_memory_ranges = ranges;
        // get the first area of type `MemoryMapEntryType::AvailableRAM` with enough space
        // if this does not work, it means that we do not have enough physical memory (more specifically, available RAM)
        let mut k: usize = 0;
        while k < len && !self.is_usable(k)
            invariant
                k <= len,
                len == ents.len(),
                self.areas is Some,
                self.areas() == ents,
                self.ranges() == prohibited@,
                !self.initialized,
                all_in_range(ents),
                next_usable(ents, 0) == next_usable(ents, k as int),
            decreases len - k,
        {
            k = k + 1;
        }
        if k >= len {
            return Err(MemoryError::NotEnoughPhyMemory);
        }
        self.current_area = k;
        // make sure that the allocator starts with a free frame (always aligned)
        self.next_frame = self.first_frame_of(k);
        proof {
            lemma_area_frames(ents[k as int]);
        }
        if self.is_frame_used() {
            self.get_next_free_frame()?;
        }
        self.initialized = true;
        Ok(())
    }

    /// Hands out the next frame and moves the walk to the next frame outside the prohibited ranges.
    pub fn allocate(&mut self) -> (r: Result<Frame, MemoryError>)
        requires
            old(self).wf(),
            old(self).is_initialized(),
        ensures
            final(self).areas() == old(self).areas(),
            final(self).ranges() == old(self).ranges(),
            final(self).is_initialized(),
            ({
                let w = free_walk(old(self).areas(), old(self).ranges(), old(self).current_area(), old(self).next_frame());
                &&& final(self).current_area() == w.0
                &&& final(self).next_frame() == w.1
                &&& w.2 ==> final(self).wf() && (r matches Ok(f) && f@ == old(self).next_frame())
                &&& !w.2 ==> r == Err::<Frame, MemoryError>(MemoryError::NotEnoughPhyMemory)
            }),
            r matches Ok(f) ==> !frame_used(old(self).ranges(), f@ as int),
    {
        proof {
            lemma_end_frame_addr(self.areas()[self.current_area()]);
            assert(self.next_frame * FRAME_PAGE_SIZE <= u64::MAX) by (nonlinear_arith)
                requires
                    self.next_frame <= end_frame(self.areas()[self.current_area()]),
                    end_frame(self.areas()[self.current_area()]) * FRAME_PAGE_SIZE <= u64::MAX,
            ;
        }
        let frame = Frame::from_phy_addr(self.next_frame * FRAME_PAGE_SIZE);
        proof {
            vstd::arithmetic::div_mod::lemma_div_multiples_vanish(self.next_frame as int, 4096);
        }
        self.get_next_free_frame()?;
        // physical address needs to be page aligned (just used to make sure that the frame allocator is behaving)
        proof {
            vstd::arithmetic::div_mod::lemma_mod_multiples_basic(frame@ as int, 4096);
        }
        if frame.addr() % FRAME_PAGE_SIZE != 0 {
            return Err(MemoryError::FrameInvalidAllocatorAddr);
        }
        Ok(frame)
    }

    /// Does nothing: this allocator does not support deallocation.
    pub fn deallocate(&self, _frame: Frame)
        requires
            self.is_initialized(),
    {
    }

    /// This allocator keeps no metadata in memory.
    pub fn metadata_memory_range(&self) -> (r: Option<ProhibitedMemoryRange>)
        requires
            self.is_initialized(),
        ensures
            r is None,
    {
        None
    }

    /// Does nothing: this allocator has no metadata to remap.
    pub fn remap(&self)
        requires
            self.is_initialized(),
    {
    }

    /// The next frame is in one of the prohibited ranges.
    fn is_frame_used(&self) -> (r: bool)
        ensures
            r == frame_used(self.ranges(), self.next_frame as int),
    {
        let addr: u128 = self.next_frame as u128 * FRAME_PAGE_SIZE as u128;
        let mut i: usize = 0;
        while i < self.kernel_prohibited_memory_ranges.len()
            invariant
                i <= self.ranges().len(),
                addr == self.next_frame * FRAME_PAGE_SIZE,
                forall|k: int| 0 <= k < i ==> !(#[trigger] self.ranges()[k]).contains(addr as int),
            decreases self.ranges().len() - i,
        {
            let range = &self.kernel_prohibited_memory_ranges[i];
            if addr >= range.start_addr() as u128 && addr <= range.end_addr() as u128 {
                return true;
            }
            i = i + 1;
        }
        false
    }

    /// The end frame of area `cur`.
    fn end_frame_of(&self, cur: usize) -> (r: u64)
        requires
            self.areas is Some,
            all_in_range(self.areas()),
            cur < self.areas().len(),
        ensures
            r == end_frame(self.areas()[cur as int]),
    {
        proof {
            lemma_frame_page_size_power_of_two();
        }
        match &self.areas {
            Some(e) => {
                let area = &e.0[cur];
                proof {
                    assert(entry_in_range(*area, FRAME_PAGE_SIZE));
                    let b = aligned_base_spec(*area, FRAME_PAGE_SIZE);
                    let l = aligned_length_spec(*area, FRAME_PAGE_SIZE);
                    vstd::arithmetic::div_mod::lemma_fundamental_div_mod(area.base_addr as int, 4096);
                    vstd::arithmetic::div_mod::lemma_fundamental_div_mod((area.base_addr + area.length) as int, 4096);
                    assert(b + l <= area.base_addr + area.length + 4096);
                }
                (area.aligned_base_addr(FRAME_PAGE_SIZE) + area.aligned_length(FRAME_PAGE_SIZE)) / FRAME_PAGE_SIZE
            },
            None => 0,
        }
    }

    /// The first frame of area `cur`.
    fn first_frame_of(&self, cur: usize) -> (r: u64)
        requires
            self.areas is Some,
            all_in_range(self.areas()),
            cur < self.areas().len(),
        ensures
            r == first_frame(self.areas()[cur as int]),
    {
        proof {
            lemma_frame_page_size_power_of_two();
        }
        match &self.areas {
            Some(e) => {
                proof {
                    assert(entry_in_range(e.0@[cur as int], FRAME_PAGE_SIZE));
                }
                e.0[cur].aligned_base_addr(FRAME_PAGE_SIZE) / FRAME_PAGE_SIZE
            },
            None => 0,
        }
    }

    /// Moves to the next (free or used) frame if it exists: this is an abstraction over the areas, with
    /// which the frames may be seen as positions in a list.
    fn get_next_frame(&mut self) -> (r: Result<(), MemoryError>)
        requires
            old(self).areas is Some,
            all_in_range(old(self).areas()),
            walk_wf(old(self).areas(), old(self).current_area(), old(self).next_frame()),
        ensures
            final(self).areas == old(self).areas,
            final(self).ranges() == old(self).ranges(),
            final(self).initialized == old(self).initialized,
            (final(self).current_area(), final(self).next_frame(), r is Ok) == step(
                old(self).areas(),
                old(self).current_area(),
                old(self).next_frame(),
            ),
            r is Err ==> r == Err::<(), MemoryError>(MemoryError::NotEnoughPhyMemory),
    {
        let ghost areas = self.areas();
        let len: usize = match &self.areas {
            Some(e) => e.0.len(),
            None => 0,
        };
        let fr_after_last_in_curr_area = self.end_frame_of(self.current_area);
        proof {
            lemma_end_frame_addr(areas[self.current_area as int]);
        }
        // check if the next frame would be outside the current area
        if self.next_frame + 1 == fr_after_last_in_curr_area {
            self.current_area = self.current_area + 1;
            proof {
                lemma_next_usable(areas, self.current_area as int);
            }
            // get to the next area with available ram and enough space
            while self.current_area < len && !self.is_usable(self.current_area)
                invariant
                    self.areas == old(self).areas,
                    self.ranges() == old(self).ranges(),
                    self.initialized == old(self).initialized,
                    self.next_frame == old(self).next_frame,
                    areas == self.areas(),
                    len == areas.len(),
                    self.areas is Some,
                    all_in_range(areas),
                    old(self).current_area < self.current_area <= next_usable(areas, old(self).current_area + 1),
                    next_usable(areas, old(self).current_area + 1) == next_usable(areas, self.current_area as int),
                decreases len - self.current_area,
            {
                proof {
                    lemma_next_usable(areas, self.current_area as int + 1);
                }
                self.current_area = self.current_area + 1;
            }
            // no more areas to use (ran out of usable memory)
            if self.current_area >= len {
                return Err(MemoryError::NotEnoughPhyMemory);
            }
            // get the first frame from the next area (always aligned)
            self.next_frame = self.first_frame_of(self.current_area);
        } else {
            // get the next frame from the same (current) area
            proof {
                lemma_area_frames(areas[self.current_area as int]);
                assert(self.next_frame < end_frame(areas[self.current_area as int]));
            }
            self.next_frame = self.next_frame + 1;
        }
        Ok(())
    }

    /// Area `i` is available RAM with at least one whole frame.
    fn is_usable(&self, i: usize) -> (r: bool)
        requires
            self.areas is Some,
            all_in_range(self.areas()),
            i < self.areas().len(),
        ensures
            r == usable_area(self.areas()[i as int]),
    {
        proof {
            lemma_frame_page_size_power_of_two();
        }
        match &self.areas {
            Some(e) => {
                proof {
                    assert(entry_in_range(e.0@[i as int], FRAME_PAGE_SIZE));
                }
                e.0[i].entry_type() == MemoryMapEntryType::AvailableRAM && e.0[i].aligned_length(FRAME_PAGE_SIZE) != 0
            },
            None => false,
        }
    }

    /// Moves to the next frame that lies outside the prohibited ranges, as [free_walk] says.
    fn get_next_free_frame(&mut self) -> (r: Result<(), MemoryError>)
        requires
            old(self).areas is Some,
            all_in_range(old(self).areas()),
            walk_wf(old(self).areas(), old(self).current_area(), old(self).next_frame()),
        ensures
            final(self).areas == old(self).areas,
            final(self).ranges() == old(self).ranges(),
            final(self).initialized == old(self).initialized,
            (final(self).current_area(), final(self).next_frame(), r is Ok) == free_walk(
                old(self).areas(),
                old(self).ranges(),
                old(self).current_area(),
                old(self).next_frame(),
            ),
            r is Err ==> r == Err::<(), MemoryError>(MemoryError::NotEnoughPhyMemory),
            r is Ok ==> walk_wf(final(self).areas(), final(self).current_area(), final(self).next_frame()),
            r is Ok ==> !frame_used(final(self).ranges(), final(self).next_frame()),
    {
        let ghost areas = self.areas();
        let ghost ranges = self.ranges();
        let ghost goal = free_walk(areas, ranges, self.current_area(), self.next_frame());
        proof {
            lemma_step_wf(areas, self.current_area(), self.next_frame());
        }
        self.get_next_frame()?;
        while self.is_frame_used()
            invariant
                self.areas == old(self).areas,
                self.ranges() == ranges,
                ranges == old(self).ranges(),
                areas == old(self).areas(),
                goal == free_walk(old(self).areas(), old(self).ranges(), old(self).current_area(), old(self).next_frame()),
                self.initialized == old(self).initialized,
                areas == self.areas(),
                self.areas is Some,
                all_in_range(areas),
                walk_wf(areas, self.current_area(), self.next_frame()),
                goal == (if frame_used(ranges, self.next_frame()) {
                    free_walk(areas, ranges, self.current_area(), self.next_frame())
                } else {
                    (self.current_area(), self.next_frame(), true)
                }),
            decreases areas.len() - self.current_area(), end_frame(areas[self.current_area()]) - self.next_frame(),
        {
            proof {
                lemma_step_wf(areas, self.current_area(), self.next_frame());
            }
            self.get_next_frame()?;
        }
        Ok(())
    }
}

} // verus!
