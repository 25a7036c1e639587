//! A frame allocator that keeps one bit per frame of available RAM.
use vstd::prelude::*;
use crate::data_structures::bitmap_ref_mut::BitmapRefMut;
use crate::memory::{align_up_spec, lemma_eight_power_of_two, lemma_frame_page_size_power_of_two, valid_range_ends, AddrOps, MemoryError, PhysicalAddress, ProhibitedMemoryRange, FRAME_PAGE_SIZE};
use crate::memory::frames::{frame_fits, Frame, FrameAllocator};
use crate::multiboot2::memory_map::{aligned_base_spec, aligned_length_spec, entry_in_range, MemoryMapEntries, MemoryMapEntry};

verus! {

/// How many bytes, counted from address 0, are identity mapped when the Rust code first starts
/// (each table maps 4096 bytes, has 512 entries and there are 512 P1 page tables).
pub const ORIGINALLY_IDENTITY_MAPPED: u64 = 0x4000_0000;

/// A usable area as the allocator sees it: its first frame aligned address and its length in bytes
/// (a whole number of frames).
pub open spec fn area_view(e: MemoryMapEntry) -> (int, int) {
    (aligned_base_spec(e, FRAME_PAGE_SIZE), aligned_length_spec(e, FRAME_PAGE_SIZE))
}

/// How many whole frames the areas hold together.
pub open spec fn frames_sum(areas: Seq<(u64, u64)>) -> int
    decreases areas.len(),
{
    if areas.len() == 0 {
        0
    } else {
        frames_sum(areas.drop_last()) + areas.last().1 as int / FRAME_PAGE_SIZE as int
    }
}

/// The bit that the frame holding `addr` takes, looking from area `i` on, `acc` bits being taken by the areas before it.
pub open spec fn addr_to_bit_from(areas: Seq<(u64, u64)>, addr: int, i: int, acc: int) -> Option<int>
    decreases areas.len() - i,
{
    if i < 0 || i >= areas.len() {
        None
    } else if areas[i].0 <= addr <= areas[i].0 + areas[i].1 - 1 {
        Some(acc + (addr - areas[i].0) / FRAME_PAGE_SIZE as int)
    } else {
        addr_to_bit_from(areas, addr, i + 1, acc + areas[i].1 as int / FRAME_PAGE_SIZE as int)
    }
}

/// The bit that the frame holding `addr` takes: frames are numbered area after area.
pub open spec fn addr_to_bit(areas: Seq<(u64, u64)>, addr: int) -> Option<int> {
    addr_to_bit_from(areas, addr, 0, 0)
}

/// The address of the frame that bit `b` stands for, looking from area `i` on.
pub open spec fn bit_to_addr_from(areas: Seq<(u64, u64)>, b: int, i: int) -> Option<int>
    decreases areas.len() - i,
{
    if i < 0 || i >= areas.len() || b < 0 {
        None
    } else if b < areas[i].1 as int / FRAME_PAGE_SIZE as int {
        Some(areas[i].0 + b * FRAME_PAGE_SIZE)
    } else {
        bit_to_addr_from(areas, b - areas[i].1 as int / FRAME_PAGE_SIZE as int, i + 1)
    }
}

/// The address of the frame that bit `b` stands for.
pub open spec fn bit_to_addr(areas: Seq<(u64, u64)>, b: int) -> Option<int> {
    bit_to_addr_from(areas, b, 0)
}

/// The first clear bit in `lo..hi`.
pub open spec fn first_clear(bits: Seq<bool>, lo: int, hi: int) -> Option<int>
    decreases hi - lo,
{
    if lo >= hi {
        None
    } else if !bits[lo] {
        Some(lo)
    } else {
        first_clear(bits, lo + 1, hi)
    }
}

/// The bit that the allocator hands out after bit `n`: the first clear bit after `n`, else the first
/// clear bit before `n` (bit `n` itself is never chosen).
pub open spec fn next_clear(bits: Seq<bool>, n: int) -> Option<int> {
    match first_clear(bits, n + 1, bits.len() as int) {
        Some(i) => Some(i),
        None => first_clear(bits, 0, if n < bits.len() { n } else { bits.len() as int }),
    }
}

/// The search for the next free frame goes round the bitmap: from the bit after `n` it finds the first
/// clear bit up to the end, else the first clear bit from the start; it finds one whenever some bit
/// other than `n` is clear, and none otherwise.
pub proof fn law_next_free_wraps(bits: Seq<bool>, n: int)
    requires
        0 <= n < bits.len(),
    ensures
        next_clear(bits, n) is Some <==> exists|j: int| 0 <= j < bits.len() && j != n && !bits[j],
        next_clear(bits, n) matches Some(m) ==> {
            &&& 0 <= m < bits.len()
            &&& m != n
            &&& !bits[m]
            &&& (n < m && forall|i: int| n < i < m ==> bits[i]) || (m < n && (forall|i: int| n < i < bits.len() ==> bits[i])
                && forall|i: int| 0 <= i < m ==> bits[i])
        },
{
    lemma_first_clear(bits, n + 1, bits.len() as int);
    lemma_first_clear(bits, 0, n);
    if exists|j: int| 0 <= j < bits.len() && j != n && !bits[j] {
        let j = choose|j: int| 0 <= j < bits.len() && j != n && !bits[j];
        if j < n {
            assert(!bits[j]);
        } else {
            assert(!bits[j]);
        }
    }
}

/// An allocator whose next free bit stands for a frame hands that frame out successfully whenever
/// another bit of its bitmap is clear, be it after or before the next free bit.
pub proof fn law_allocate_while_frames_free(fa: &BitmapFrameAllocator, j: int)
    requires
        fa.wf(),
        fa.is_initialized(),
        0 <= fa.next_free() < fa.bits().len(),
        0 <= j < fa.bits().len(),
        j != fa.next_free(),
        !fa.bits()[j],
    ensures
        next_clear(fa.bits().update(fa.next_free(), true), fa.next_free()) is Some,
{
    let b2 = fa.bits().update(fa.next_free(), true);
    assert(!b2[j]);
    law_next_free_wraps(b2, fa.next_free());
}

pub proof fn lemma_first_clear(bits: Seq<bool>, lo: int, hi: int)
    requires
        0 <= lo,
        hi <= bits.len(),
    ensures
        first_clear(bits, lo, hi) matches Some(i) ==> lo <= i < hi && !bits[i] && forall|j: int|
            lo <= j < i ==> bits[j],
        first_clear(bits, lo, hi) is None ==> forall|j: int| lo <= j < hi ==> bits[j],
    decreases hi - lo,
{
    if lo < hi && bits[lo] {
        lemma_first_clear(bits, lo + 1, hi);
    }
}

/// Whether the range `start..=end` meets one of the ranges `(start, end)` of `ranges`.
pub open spec fn overlaps_any(start: int, end: int, ranges: Seq<(u64, u64)>) -> bool {
    exists|j: int| 0 <= j < ranges.len() && start <= ranges[j].1 && ranges[j].0 <= end
}

/// The first position, from `cursor` on by steps of a frame, where `bytes` bytes fit in the area
/// that ends at `area_end`, below [ORIGINALLY_IDENTITY_MAPPED], without meeting a range of `ranges`.
pub open spec fn cursor_search(cursor: int, area_end: int, bytes: int, ranges: Seq<(u64, u64)>) -> Option<int>
    decreases area_end + FRAME_PAGE_SIZE - cursor,
{
    if bytes < 1 || cursor + bytes - 1 > area_end || cursor + bytes - 1 >= ORIGINALLY_IDENTITY_MAPPED {
        None
    } else if !overlaps_any(cursor, cursor + bytes - 1, ranges) {
        Some(cursor)
    } else {
        cursor_search(cursor + FRAME_PAGE_SIZE, area_end, bytes, ranges)
    }
}

/// Where the bitmap of `bytes` bytes goes: the first area (from area `i` on) that is large enough and
/// starts low enough, at the first position found there by [cursor_search].
pub open spec fn location_search(areas: Seq<(u64, u64)>, i: int, bytes: int, ranges: Seq<(u64, u64)>) -> Option<int>
    decreases areas.len() - i,
{
    if i < 0 || i >= areas.len() {
        None
    } else if areas[i].1 >= bytes && areas[i].0 + bytes - 1 < ORIGINALLY_IDENTITY_MAPPED {
        match cursor_search(areas[i].0 as int, areas[i].0 + areas[i].1 - 1, bytes, ranges) {
            Some(c) => Some(c),
            None => location_search(areas, i + 1, bytes, ranges),
        }
    } else {
        location_search(areas, i + 1, bytes, ranges)
    }
}

/// The `(start, end)` pairs of prohibited ranges.
pub open spec fn ranges_view(ranges: Seq<ProhibitedMemoryRange>) -> Seq<(u64, u64)> {
    ranges.map_values(|r: ProhibitedMemoryRange| (r.start(), r.end()))
}

/// The usable areas of a memory map, as the allocator sees them.
pub open spec fn usable_view(entries: Seq<MemoryMapEntry>) -> Seq<(u64, u64)> {
    MemoryMapEntries::usable_spec(entries).map_values(|e: MemoryMapEntry| (area_view(e).0 as u64, area_view(e).1 as u64))
}

/// Every entry of the memory map lies far enough below the top of the address space, and no area of
/// available RAM is empty while starting at address 0.
pub open spec fn entries_in_range(entries: Seq<MemoryMapEntry>) -> bool {
    &&& forall|k: int| 0 <= k < entries.len() ==> entry_in_range(#[trigger] entries[k], FRAME_PAGE_SIZE)
    &&& forall|k: int|
        0 <= k < usable_view(entries).len() ==> (#[trigger] usable_view(entries)[k]).0 > 0
            || usable_view(entries)[k].1 > 0
}

/// The areas are frame aligned, lie below the top of the address space, and none starts at 0 while being empty.
pub open spec fn areas_wf(areas: Seq<(u64, u64)>) -> bool {
    forall|k: int|
        0 <= k < areas.len() ==> {
            &&& (#[trigger] areas[k]).0 % FRAME_PAGE_SIZE == 0
            &&& areas[k].1 % FRAME_PAGE_SIZE == 0
            &&& areas[k].0 + areas[k].1 <= u64::MAX
            &&& (areas[k].0 > 0 || areas[k].1 > 0)
        }
}

struct BitmapFrameAllocatorInner<'a> {
    // the usable areas: their frame aligned start address and length in bytes
    areas: Vec<(u64, u64)>,
    // a reference to the bitmap
    bitmap: Option<BitmapRefMut<'a>>,
    next_free_frame: usize,
    prohibited_mem_range: ProhibitedMemoryRange,
}

/// A frame allocator with one bit per frame of available RAM (set: the frame is in use).
pub struct BitmapFrameAllocator<'a>(BitmapFrameAllocatorInner<'a>);

impl<'a> BitmapFrameAllocatorInner<'a> {
    spec fn wf(&self) -> bool {
        &&& areas_wf(self.areas@)
        &&& frames_sum(self.areas@) <= usize::MAX
        &&& self.bitmap matches Some(b) ==> self.next_free_frame < b@.len() && frames_sum(self.areas@) <= b@.len()
            && b@.len() < usize::MAX
    }

    /// Whether the frames of `[start, end]` make a run of bits that fits in `nbits` bits: see [range_fits].
    fn range_fits_check(&self, start: PhysicalAddress, end: PhysicalAddress, nbits: usize) -> (r: bool)
        requires
            self.wf(),
        ensures
            r == range_fits(self.areas@, start as int, end as int, nbits as int),
    {
        if start > end || end - start > u64::MAX - FRAME_PAGE_SIZE {
            return false;
        }
        let b = match self.addr_to_bit_idx(start) {
            Some(b) => b,
            None => {
                return false;
            },
        };
        proof {
            lemma_frame_page_size_power_of_two();
        }
        let n = (end - start + 1).align_up(FRAME_PAGE_SIZE) / FRAME_PAGE_SIZE;
        (b as u64) <= (nbits as u64) && n <= (nbits as u64) - (b as u64)
    }

    /// The bit of the frame that holds `addr`.
    fn addr_to_bit_idx(&self, addr: PhysicalAddress) -> (r: Option<usize>)
        requires
            self.wf(),
        ensures
            r matches Some(b) ==> addr_to_bit(self.areas@, addr as int) == Some(b as int),
            r is None ==> addr_to_bit(self.areas@, addr as int) is None,
    {
        self.frame_to_bit_idx_of_addr(addr)
    }

    /// The bit of `frame`.
    fn frame_to_bit_idx(&self, frame: Frame) -> (r: Option<usize>)
        requires
            self.wf(),
        ensures
            r matches Some(b) ==> addr_to_bit(self.areas@, frame@ * FRAME_PAGE_SIZE) == Some(b as int),
            r is None ==> addr_to_bit(self.areas@, frame@ * FRAME_PAGE_SIZE) is None,
    {
        self.frame_to_bit_idx_of_addr(frame.addr())
    }

    /// The bit of the frame that holds `addr` (tracks the total number of usable frames already checked).
    fn frame_to_bit_idx_of_addr(&self, addr: PhysicalAddress) -> (r: Option<usize>)
        requires
            self.wf(),
        ensures
            r matches Some(b) ==> addr_to_bit(self.areas@, addr as int) == Some(b as int),
            r is None ==> addr_to_bit(self.areas@, addr as int) is None,
    {
        let mut frame_acc: u64 = 0;
        let mut i: usize = 0;
        proof {
            lemma_frames_sum_prefix(self.areas@, 0);
        }
        while i < self.areas.len()
            invariant
                self.wf(),
                i <= self.areas@.len(),
                frame_acc == frames_sum(self.areas@.take(i as int)),
                addr_to_bit(self.areas@, addr as int) == addr_to_bit_from(self.areas@, addr as int, i as int, frame_acc as int),
            decreases self.areas@.len() - i,
        {
            let (start, len) = self.areas[i];
            proof {
                lemma_frames_sum_prefix(self.areas@, i as int + 1);
                lemma_frames_sum_take_bound(self.areas@, i as int + 1);
                assert(self.areas@.take(i as int + 1).drop_last() =~= self.areas@.take(i as int));
            }
            let end = start + len - 1;
            if addr >= start && addr <= end {
                let offset = (addr - start) / FRAME_PAGE_SIZE;
                proof {
                    vstd::arithmetic::div_mod::lemma_div_is_ordered((addr - start) as int, (len - 1) as int, FRAME_PAGE_SIZE as int);
                    vstd::arithmetic::div_mod::lemma_div_is_ordered((len - 1) as int, len as int, FRAME_PAGE_SIZE as int);
                }
                return Some((frame_acc + offset) as usize);
            }
            frame_acc = frame_acc + len / FRAME_PAGE_SIZE;
            i = i + 1;
        }
        None
    }

    /// The frame that bit `bit_idx` stands for.
    fn bit_idx_to_frame(&self, bit_idx: usize) -> (r: Option<Frame>)
        requires
            self.wf(),
        ensures
            r matches Some(f) ==> bit_to_addr(self.areas@, bit_idx as int) matches Some(a) && f@ == a / FRAME_PAGE_SIZE as int,
            r is None ==> bit_to_addr(self.areas@, bit_idx as int) is None,
    {
        let mut b: u64 = bit_idx as u64;
        let mut i: usize = 0;
        while i < self.areas.len()
            invariant
                self.wf(),
                i <= self.areas@.len(),
                b <= bit_idx,
                bit_to_addr(self.areas@, bit_idx as int) == bit_to_addr_from(self.areas@, b as int, i as int),
            decreases self.areas@.len() - i,
        {
            let (start, len) = self.areas[i];
            let frames = len / FRAME_PAGE_SIZE;
            if b < frames {
                proof {
                    assert(start + b * FRAME_PAGE_SIZE <= start + len) by (nonlinear_arith)
                        requires
                            b < len / (FRAME_PAGE_SIZE as u64),
                    ;
                }
                return Some(Frame::from_phy_addr(start + b * FRAME_PAGE_SIZE));
            }
            b = b - frames;
            i = i + 1;
        }
        None
    }

    /// Obtain the bit index for the next free frame to be used when the allocator allocates again.
    ///
    /// This assumes that the current **self.next_free_frame** (before calling this), will be marked as used so, it is ignored.
    fn get_next_free_frame(&self) -> (r: Option<usize>)
        requires
            self.wf(),
            self.bitmap is Some,
        ensures
            r matches Some(i) ==> next_clear(self.bitmap->0@, self.next_free_frame as int) == Some(i as int),
            r is None ==> next_clear(self.bitmap->0@, self.next_free_frame as int) is None,
    {
        let bitmap = self.bitmap.as_ref().unwrap();
        let ghost bits = bitmap@;
        let n = self.next_free_frame;
        let mut it = bitmap.iter();
        let mut k: usize = 0;
        loop
            invariant_except_break
                k <= bits.len(),
            invariant
                it.index() == k,
                it.bitmap()@ == bits,
                bits == self.bitmap->0@,
                n == self.next_free_frame,
                bits.len() < usize::MAX,
                forall|j: int| n + 1 <= j < k && j < bits.len() ==> bits[j],
            ensures
                forall|j: int| n + 1 <= j < bits.len() ==> bits[j],
            decreases bits.len() - k,
        {
            let bit = it.next();
            let cur = k;
            k = k + 1;
            match bit {
                None => {
                    break;
                },
                Some(b) => {
                    if cur > n && !b {
                        proof {
                            lemma_first_clear(bits, n + 1, bits.len() as int);
                        }
                        return Some(cur);
                    }
                },
            }
        }
        proof {
            lemma_first_clear(bits, n + 1, bits.len() as int);
        }
        let ghost hi: int = if n < bits.len() { n as int } else { bits.len() as int };
        let mut it = bitmap.iter();
        let mut k: usize = 0;
        while k < n
            invariant
                it.index() == k,
                it.bitmap()@ == bits,
                bits == self.bitmap->0@,
                n == self.next_free_frame,
                k <= n,
                k <= bits.len(),
                bits.len() < usize::MAX,
                hi == (if n < bits.len() { n as int } else { bits.len() as int }),
                first_clear(bits, n + 1, bits.len() as int) is None,
                forall|j: int| 0 <= j < k ==> bits[j],
            decreases n - k,
        {
            match it.next() {
                None => {
                    proof {
                        lemma_first_clear(bits, 0, hi);
                    }
                    return None;
                },
                Some(b) => {
                    if !b {
                        proof {
                            lemma_first_clear(bits, 0, hi);
                        }
                        return Some(k);
                    }
                },
            }
            k = k + 1;
        }
        proof {
            lemma_first_clear(bits, 0, hi);
        }
        None
    }
}

/// The bitmap after marking, in a bitmap of `len` clear bits, each run `(first bit, bit count)` of `marks`.
pub open spec fn marked_bits(len: nat, marks: Seq<(int, int)>) -> Seq<bool> {
    Seq::new(len, |j: int| exists|k: int| 0 <= k < marks.len() && (#[trigger] marks[k]).0 <= j < marks[k].0 + marks[k].1)
}

/// The run of bits that a range of physical addresses takes: its first frame's bit and its length in frames.
pub open spec fn range_marks(areas: Seq<(u64, u64)>, start: int, end: int) -> (int, int) {
    (
        match addr_to_bit(areas, start) {
            Some(b) => b,
            None => 0,
        },
        align_up_spec(end - start + 1, FRAME_PAGE_SIZE as int) / FRAME_PAGE_SIZE as int,
    )
}

/// The runs of bits that `init` marks: every prohibited range, then the frames of the bitmap itself.
pub open spec fn init_marks(areas: Seq<(u64, u64)>, ranges: Seq<(u64, u64)>, bitmap_start: int, bytes: int) -> Seq<
    (int, int),
> {
    ranges.map_values(|r: (u64, u64)| range_marks(areas, r.0 as int, r.1 as int)).push(
        range_marks(areas, bitmap_start, bitmap_start + bytes - 1),
    )
}

/// How many bytes the bitmap of `frames` frames takes.
pub open spec fn bitmap_bytes(frames: int) -> int {
    align_up_spec(frames, 8) / 8
}

impl<'a> BitmapFrameAllocator<'a> {
    /// The allocator's own consistency: the areas are well formed and the next free frame is a bit of the bitmap.
    pub closed spec fn wf(&self) -> bool {
        self.0.wf()
    }

    /// The usable areas: frame aligned start address and length in bytes.
    pub closed spec fn areas(&self) -> Seq<(u64, u64)> {
        self.0.areas@
    }

    /// The allocator has its bitmap.
    pub closed spec fn is_initialized(&self) -> bool {
        self.0.bitmap is Some
    }

    /// The bitmap: one bit per usable frame (set: in use), then padding bits.
    pub closed spec fn bits(&self) -> Seq<bool> {
        match self.0.bitmap {
            Some(b) => b@,
            None => Seq::empty(),
        }
    }

    /// The bit of the frame that the next allocation hands out.
    pub closed spec fn next_free(&self) -> int {
        self.0.next_free_frame as int
    }

    /// The memory that the bitmap itself takes.
    pub closed spec fn metadata_range(&self) -> ProhibitedMemoryRange {
        self.0.prohibited_mem_range
    }

    /// An allocator that is not initialized yet.
    pub fn new() -> (r: Self)
        ensures
            r.wf(),
            !r.is_initialized(),
            r.areas() == Seq::<(u64, u64)>::empty(),
            r.next_free() == 0,
            r.metadata_range().start() == 0,
            r.metadata_range().end() == 0,
    {
        BitmapFrameAllocator(
            BitmapFrameAllocatorInner {
                areas: Vec::new(),
                bitmap: None,
                next_free_frame: 0,
                prohibited_mem_range: ProhibitedMemoryRange::empty(),
            },
        )
    }

    /// The usable areas of `entries` as the allocator keeps them.
    fn usable_areas_of(entries: &MemoryMapEntries) -> (r: Vec<(u64, u64)>)
        requires
            entries_in_range(entries.0@),
        ensures
            r@ == usable_view(entries.0@),
            areas_wf(r@),
    {
        let usable = entries.usable_areas();
        let mut r: Vec<(u64, u64)> = Vec::new();
        let mut i: usize = 0;
        proof {
            lemma_frame_page_size_power_of_two();
            lemma_usable_in_range(entries.0@);
            assert forall|k: int| 0 <= k < usable@.len() implies (area_view(#[trigger] usable@[k]).0 > 0 || area_view(usable@[k]).1 > 0) by {
                lemma_area_view_wf(usable@[k]);
                assert(usable_view(entries.0@)[k] == (area_view(usable@[k]).0 as u64, area_view(usable@[k]).1 as u64));
            }
        }
        while i < usable.len()
            invariant
                i <= usable@.len(),
                usable@ == MemoryMapEntries::usable_spec(entries.0@),
                crate::memory::is_power_of_two(FRAME_PAGE_SIZE),
                forall|k: int| 0 <= k < usable@.len() ==> entry_in_range(#[trigger] usable@[k], FRAME_PAGE_SIZE),
                forall|k: int| 0 <= k < usable@.len() ==> (area_view(#[trigger] usable@[k]).0 > 0 || area_view(usable@[k]).1 > 0),
                r@ == usable@.take(i as int).map_values(|e: MemoryMapEntry| (area_view(e).0 as u64, area_view(e).1 as u64)),
                areas_wf(r@),
            decreases usable@.len() - i,
        {
            let e = usable[i];
            let start = e.aligned_base_addr(FRAME_PAGE_SIZE);
            let len = e.aligned_length(FRAME_PAGE_SIZE);
            proof {
                lemma_area_view_wf(e);
            }
            r.push((start, len));
            proof {
                assert(usable@.take(i as int + 1) =~= usable@.take(i as int).push(e));
                assert(r@ =~= usable@.take(i as int + 1).map_values(|e: MemoryMapEntry| (area_view(e).0 as u64, area_view(e).1 as u64)));
            }
            i = i + 1;
        }
        proof {
            assert(usable@.take(usable@.len() as int) =~= usable@);
        }
        r
    }
}

impl<'a> BitmapFrameAllocator<'a> {
    /// Whether `start..=end` meets one of the prohibited ranges.
    fn overlaps_prohibited(start: u64, end: u64, prohibited: &[ProhibitedMemoryRange]) -> (r: bool)
        ensures
            r == overlaps_any(start as int, end as int, ranges_view(prohibited@)),
    {
        let mut k: usize = 0;
        while k < prohibited.len()
            invariant
                k <= prohibited@.len(),
                forall|j: int| 0 <= j < k ==> !(start <= ranges_view(prohibited@)[j].1 && ranges_view(prohibited@)[j].0 <= end),
            decreases prohibited@.len() - k,
        {
            let range = &prohibited[k];
            // https://stackoverflow.com/a/3269471/22836431
            if start <= range.end_addr() && range.start_addr() <= end {
                assert(ranges_view(prohibited@)[k as int] == (range.start(), range.end()));
                return true;
            }
            k = k + 1;
        }
        false
    }

    /// How many frames the usable areas hold together.
    fn usable_frame_count(areas: &Vec<(u64, u64)>) -> (r: u64)
        requires
            frames_sum(areas@) <= u64::MAX,
        ensures
            r == frames_sum(areas@),
    {
        let mut count: u64 = 0;
        let mut i: usize = 0;
        while i < areas.len()
            invariant
                i <= areas@.len(),
                frames_sum(areas@) <= u64::MAX,
                count == frames_sum(areas@.take(i as int)),
            decreases areas@.len() - i,
        {
            proof {
                lemma_frames_sum_prefix(areas@, i as int + 1);
                lemma_frames_sum_take_bound(areas@, i as int + 1);
            }
            count = count + areas[i].1 / FRAME_PAGE_SIZE;
            i = i + 1;
        }
        proof {
            assert(areas@.take(areas@.len() as int) =~= areas@);
        }
        count
    }

    /// Whether the runs of frames that [BitmapFrameAllocator::init] marks fit in a bitmap of `bytes` bytes:
    /// each prohibited range, and the bitmap's own memory at `bitmap_start`, starts in a usable area of
    /// `entries`, and its frames, counted from the bit of its first frame, stay within the bitmap.
    pub fn marks_fit(
        entries: &MemoryMapEntries,
        prohibited: &[ProhibitedMemoryRange],
        bitmap_start: PhysicalAddress,
        bytes: usize,
    ) -> (r: bool)
        requires
            entries_in_range(entries.0@),
            frames_sum(usable_view(entries.0@)) <= usize::MAX,
            bytes * 8 <= usize::MAX,
            bitmap_start + bytes <= u64::MAX,
        ensures
            r == ((forall|k: int|
                0 <= k < prohibited@.len() ==> range_fits(
                    usable_view(entries.0@),
                    (#[trigger] prohibited@[k]).start() as int,
                    prohibited@[k].end() as int,
                    bytes * 8,
                )) && range_fits(usable_view(entries.0@), bitmap_start as int, bitmap_start + bytes - 1, bytes * 8)),
    {
        let inner = BitmapFrameAllocatorInner {
            areas: Self::usable_areas_of(entries),
            bitmap: None,
            next_free_frame: 0,
            prohibited_mem_range: ProhibitedMemoryRange::empty(),
        };
        let nbits = bytes * 8;
        let mut k: usize = 0;
        while k < prohibited.len()
            invariant
                inner.wf(),
                inner.areas@ == usable_view(entries.0@),
                nbits == bytes * 8,
                k <= prohibited@.len(),
                forall|j: int|
                    0 <= j < k ==> range_fits(
                        usable_view(entries.0@),
                        (#[trigger] prohibited@[j]).start() as int,
                        prohibited@[j].end() as int,
                        bytes * 8,
                    ),
            decreases prohibited@.len() - k,
        {
            let range = &prohibited[k];
            if !inner.range_fits_check(range.start_addr(), range.end_addr(), nbits) {
                return false;
            }
            k = k + 1;
        }
        if bytes == 0 {
            return false;
        }
        inner.range_fits_check(bitmap_start, bitmap_start + (bytes as u64 - 1), nbits)
    }

    /// Where the bitmap can go, and how many bytes it takes: the first frame aligned place, in the first
    /// area of available RAM large enough, that lies below the identity mapped memory and meets no prohibited range.
    /// `Err(MemoryError::NotEnoughPhyMemory)` when there is no such place.
    pub fn bitmap_location(entries: &MemoryMapEntries, prohibited: &[ProhibitedMemoryRange]) -> (r: Result<(PhysicalAddress, usize), MemoryError>)
        requires
            entries_in_range(entries.0@),
            0 < frames_sum(usable_view(entries.0@)),
            frames_sum(usable_view(entries.0@)) + 7 <= usize::MAX,
        ensures
            ({
                let areas = usable_view(entries.0@);
                let bytes = bitmap_bytes(frames_sum(areas));
                let ranges = ranges_view(prohibited@);
                match r {
                    Ok((a, b)) => {
                        &&& b == bytes
                        &&& location_search(areas, 0, bytes, ranges) == Some(a as int)
                        &&& a % FRAME_PAGE_SIZE == 0
                        &&& a + b - 1 < ORIGINALLY_IDENTITY_MAPPED
                        &&& !overlaps_any(a as int, a + b - 1, ranges)
                        &&& exists|k: int| 0 <= k < areas.len() && areas[k].0 <= a && a + b <= areas[k].0 + areas[k].1
                    },
                    Err(e) => e == MemoryError::NotEnoughPhyMemory && location_search(areas, 0, bytes, ranges) is None,
                }
            }),
    {
        let areas = Self::usable_areas_of(entries);
        let ghost ranges = ranges_view(prohibited@);
        let usable_frame_count = Self::usable_frame_count(&areas);
        proof {
            lemma_eight_power_of_two();
            vstd::arithmetic::div_mod::lemma_div_is_ordered(align_up_spec(usable_frame_count as int, 8), u64::MAX as int, 8);
        }
        let bytes64 = usable_frame_count.align_up(8) / 8;
        proof {
            lemma_bitmap_bytes_bounds(usable_frame_count as int);
        }
        let bitmap_bytes_count = bytes64 as usize;
        let mut i: usize = 0;
        while i < areas.len()
            invariant
                i <= areas@.len(),
                areas@ == usable_view(entries.0@),
                areas_wf(areas@),
                ranges == ranges_view(prohibited@),
                1 <= bitmap_bytes_count == bytes64 == bitmap_bytes(frames_sum(areas@)),
                bytes64 <= usable_frame_count,
                location_search(areas@, 0, bytes64 as int, ranges) == location_search(areas@, i as int, bytes64 as int, ranges),
            decreases areas@.len() - i,
        {
            let (area_start, area_len) = areas[i];
            if area_len >= bytes64 && area_start + bytes64 - 1 < ORIGINALLY_IDENTITY_MAPPED {
                let area_end = area_start + area_len - 1;
                let mut cursor_start = area_start;
                let mut cursor_end = cursor_start + bytes64 - 1;
                proof {
                    assert(areas@[i as int] == (area_start, area_len));
                }
                // the chosen region must not overlap with any of the prohibited regions
                while cursor_end <= area_end && cursor_end < ORIGINALLY_IDENTITY_MAPPED
                    invariant
                        area_start <= cursor_start,
                        cursor_end == cursor_start + bytes64 - 1,
                        area_end == area_start + area_len - 1,
                        area_start + area_len <= u64::MAX,
                        area_start % FRAME_PAGE_SIZE == 0,
                        cursor_start % FRAME_PAGE_SIZE == 0,
                        1 <= bytes64,
                        ranges == ranges_view(prohibited@),
                        i < areas@.len(),
                        areas@[i as int] == (area_start, area_len),
                        area_len >= bytes64,
                        area_start + bytes64 - 1 < ORIGINALLY_IDENTITY_MAPPED,
                        areas@ == usable_view(entries.0@),
                        1 <= bitmap_bytes_count == bytes64 == bitmap_bytes(frames_sum(areas@)),
                        location_search(areas@, 0, bytes64 as int, ranges) == location_search(areas@, i as int, bytes64 as int, ranges),
                        cursor_search(area_start as int, area_end as int, bytes64 as int, ranges) == cursor_search(
                            cursor_start as int,
                            area_end as int,
                            bytes64 as int,
                            ranges,
                        ),
                    decreases area_end + FRAME_PAGE_SIZE - cursor_start,
                {
                    if !Self::overlaps_prohibited(cursor_start, cursor_end, prohibited) {
                        proof {
                            assert(location_search(areas@, i as int, bytes64 as int, ranges) == Some(cursor_start as int));
                            assert(cursor_start <= area_start + area_len - bytes64);
                            assert(areas@[i as int].0 <= cursor_start && cursor_start + bytes64 <= areas@[i as int].0 + areas@[i as int].1);
                        }
                        return Ok((cursor_start, bitmap_bytes_count));
                    }
                    cursor_start = cursor_start + FRAME_PAGE_SIZE;
                    cursor_end = cursor_end + FRAME_PAGE_SIZE;
                }
            }
            i = i + 1;
        }
        // this should not, realistically, happen
        // but in case it does, there is not really anything we can do as we just don't have enough, contiguous, memory
        Err(MemoryError::NotEnoughPhyMemory)
    }
}

/// The frames that `bytes` bytes take, rounded up.
pub open spec fn frames_of_bytes(bytes: int) -> int {
    align_up_spec(bytes, FRAME_PAGE_SIZE as int) / FRAME_PAGE_SIZE as int
}

/// What `init` needs to mark a range without going past the bitmap: the range is not reversed, its
/// first frame has a bit and all its frames have bits.
pub open spec fn range_fits(areas: Seq<(u64, u64)>, start: int, end: int, nbits: int) -> bool {
    &&& start <= end
    &&& end - start + FRAME_PAGE_SIZE <= u64::MAX
    &&& addr_to_bit(areas, start) is Some
    &&& range_marks(areas, start, end).0 + range_marks(areas, start, end).1 <= nbits
}

impl<'a> BitmapFrameAllocator<'a> {
    /// Marks `count` bits from `start` as in use.
    fn mark_run(bitmap: &mut BitmapRefMut<'a>, start: usize, count: u64, marks: Ghost<Seq<(int, int)>>)
        requires
            old(bitmap)@ == marked_bits(old(bitmap)@.len(), marks@),
            start + count <= old(bitmap)@.len(),
            old(bitmap)@.len() <= usize::MAX,
        ensures
            final(bitmap)@ == marked_bits(old(bitmap)@.len(), marks@.push((start as int, count as int))),
            final(bitmap).bytes().len() == old(bitmap).bytes().len(),
    {
        let ghost len = bitmap@.len();
        proof {
            lemma_mark_none(len, marks@, start as int);
        }
        let count = count as usize;
        let mut i: usize = 0;
        while i < count
            invariant
                i <= count,
                start + count <= len,
                len <= usize::MAX,
                bitmap@.len() == len,
                bitmap.bytes().len() == old(bitmap).bytes().len(),
                bitmap@ == marked_bits(len, marks@.push((start as int, i as int))),
            decreases count - i,
        {
            proof {
                lemma_mark_one(len, marks@, start as int, i as int);
            }
            bitmap.set(start + i, true);
            i = i + 1;
        }
    }

    /// Sets the allocator up: marks every prohibited range and the bitmap's own frames as in use, then
    /// picks the first clear bit after bit 0 as the next free frame (`Err(MemoryError::NotEnoughPhyMemory)` when there is none).
    ///
    /// `bitmap_mem` is the memory of the bitmap, at physical address `bitmap_start`: the place that
    /// [BitmapFrameAllocator::bitmap_location] finds, below the identity mapped memory and outside every
    /// prohibited range.
    pub fn init(
        &mut self,
        entries: &MemoryMapEntries,
        prohibited: &[ProhibitedMemoryRange],
        bitmap_start: PhysicalAddress,
        bitmap_mem: &'a mut [u8],
    ) -> (r: Result<(), MemoryError>)
        requires
            entries_in_range(entries.0@),
            0 < frames_sum(usable_view(entries.0@)),
            frames_sum(usable_view(entries.0@)) + 7 <= usize::MAX,
            old(bitmap_mem)@.len() == bitmap_bytes(frames_sum(usable_view(entries.0@))),
            old(bitmap_mem)@.len() * 8 < usize::MAX,
            location_search(usable_view(entries.0@), 0, old(bitmap_mem)@.len() as int, ranges_view(prohibited@))
                == Some(bitmap_start as int),
            forall|k: int|
                0 <= k < prohibited@.len() ==> range_fits(
                    usable_view(entries.0@),
                    (#[trigger] prohibited@[k]).start() as int,
                    prohibited@[k].end() as int,
                    (old(bitmap_mem)@.len() * 8) as int,
                ),
            range_fits(
                usable_view(entries.0@),
                bitmap_start as int,
                bitmap_start + old(bitmap_mem)@.len() - 1,
                (old(bitmap_mem)@.len() * 8) as int,
            ),
            valid_range_ends(
                bitmap_start,
                (bitmap_start + frames_of_bytes(old(bitmap_mem)@.len() as int) * FRAME_PAGE_SIZE - 1) as u64,
            ),
            bitmap_start + frames_of_bytes(old(bitmap_mem)@.len() as int) * FRAME_PAGE_SIZE - 1 < u64::MAX,
        ensures
            ({
                let areas = usable_view(entries.0@);
                let bytes = old(bitmap_mem)@.len() as int;
                let bits = marked_bits((bytes * 8) as nat, init_marks(areas, ranges_view(prohibited@), bitmap_start as int, bytes));
                &&& final(self).wf()
                &&& final(self).is_initialized()
                &&& final(self).areas() == areas
                &&& final(self).bits() == bits
                &&& match next_clear(bits, 0) {
                    Some(n) => {
                        &&& r is Ok
                        &&& final(self).next_free() == n
                        &&& !final(self).bits()[n]
                        &&& final(self).metadata_range().start() == bitmap_start
                        &&& final(self).metadata_range().end() == bitmap_start + frames_of_bytes(bytes) * FRAME_PAGE_SIZE - 1
                    },
                    None => {
                        &&& r == Err::<(), MemoryError>(MemoryError::NotEnoughPhyMemory)
                        &&& final(self).next_free() == 0
                        &&& final(self).metadata_range() == old(self).metadata_range()
                    },
                }
            }),
    {
        let ghost areas = usable_view(entries.0@);
        let ghost ranges = ranges_view(prohibited@);
        let bytes = bitmap_mem.len();
        self.0.areas = Self::usable_areas_of(entries);
        self.0.bitmap = None;
        self.0.next_free_frame = 0;
        let mut bitmap = BitmapRefMut::new(bitmap_mem, None);
        proof {
            lemma_frame_page_size_power_of_two();
            assert(bitmap@ =~= marked_bits((bytes * 8) as nat, Seq::empty()));
            assert(ranges.take(0).map_values(|r: (u64, u64)| range_marks(areas, r.0 as int, r.1 as int)) =~= Seq::empty());
        }
        // mark the prohibited kernel memory ranges as allocated
        let mut k: usize = 0;
        while k < prohibited.len()
            invariant
                k <= prohibited@.len(),
                self.0.areas@ == areas,
                self.0.bitmap is None,
                areas == usable_view(entries.0@),
                ranges == ranges_view(prohibited@),
                areas_wf(areas),
                frames_sum(areas) <= usize::MAX,
                bitmap@.len() == bytes * 8,
                bytes * 8 < usize::MAX,
                bytes == bitmap.bytes().len(),
                forall|j: int|
                    0 <= j < prohibited@.len() ==> range_fits(
                        areas,
                        (#[trigger] prohibited@[j]).start() as int,
                        prohibited@[j].end() as int,
                        bytes * 8,
                    ),
                bitmap@ == marked_bits(
                    (bytes * 8) as nat,
                    ranges.take(k as int).map_values(|r: (u64, u64)| range_marks(areas, r.0 as int, r.1 as int)),
                ),
            decreases prohibited@.len() - k,
        {
            let range = &prohibited[k];
            // this *must* work
            let start_bit = match self.0.addr_to_bit_idx(range.start_addr()) {
                Some(b) => b,
                None => {
                    proof {
                        assert(false);
                    }
                    0
                },
            };
            let count = range.frame_length();
            proof {
                assert(ranges[k as int] == (range.start(), range.end()));
                assert(ranges.take(k as int + 1).map_values(|r: (u64, u64)| range_marks(areas, r.0 as int, r.1 as int))
                    =~= ranges.take(k as int).map_values(|r: (u64, u64)| range_marks(areas, r.0 as int, r.1 as int)).push(
                    (start_bit as int, count as int),
                ));
            }
            Self::mark_run(
                &mut bitmap,
                start_bit,
                count,
                Ghost(ranges.take(k as int).map_values(|r: (u64, u64)| range_marks(areas, r.0 as int, r.1 as int))),
            );
            k = k + 1;
        }
        // mark the bitmap memory itself as allocated (the match *must* work)
        let bitmap_frames_count = (bytes as u64).align_up(FRAME_PAGE_SIZE) / FRAME_PAGE_SIZE;
        let start_bit = match self.0.addr_to_bit_idx(bitmap_start) {
            Some(b) => b,
            None => {
                proof {
                    assert(false);
                }
                0
            },
        };
        proof {
            assert(ranges.take(ranges.len() as int) =~= ranges);
            assert(bitmap_frames_count == range_marks(areas, bitmap_start as int, bitmap_start + bytes - 1).1);
        }
        Self::mark_run(
            &mut bitmap,
            start_bit,
            bitmap_frames_count,
            Ghost(ranges.map_values(|r: (u64, u64)| range_marks(areas, r.0 as int, r.1 as int))),
        );
        proof {
            lemma_bitmap_bytes_bounds(frames_sum(areas));
            assert(8 * bitmap_bytes(frames_sum(areas)) >= frames_sum(areas)) by {
                vstd::arithmetic::div_mod::lemma_fundamental_div_mod(frames_sum(areas), 8);
            }
        }
        self.0.bitmap = Some(bitmap);
        self.0.next_free_frame = 0;
        proof {
            lemma_next_clear(self.0.bitmap->0@, 0);
        }
        let next = self.0.get_next_free_frame();
        match next {
            None => {
                return Err(MemoryError::NotEnoughPhyMemory);
            },
            Some(n) => {
                self.0.next_free_frame = n;
            },
        }
        let end_addr = bitmap_start + (bitmap_frames_count * FRAME_PAGE_SIZE - 1);
        self.0.prohibited_mem_range = ProhibitedMemoryRange::new(bitmap_start, end_addr);
        Ok(())
    }

    /// Allocates the frame of the next free bit: the bit is set and the next free bit is searched for
    /// after it. `Err(MemoryError::NotEnoughPhyMemory)` when the next free bit stands for no frame (it is a padding bit),
    /// or when no clear bit is left after marking it (the bit stays set).
    pub fn allocate_frame(&mut self) -> (r: Result<Frame, MemoryError>)
        requires
            old(self).wf(),
            old(self).is_initialized(),
        ensures
            final(self).wf(),
            final(self).is_initialized(),
            final(self).areas() == old(self).areas(),
            final(self).metadata_range() == old(self).metadata_range(),
            ({
                let n = old(self).next_free();
                match bit_to_addr(old(self).areas(), n) {
                    None => {
                        &&& r == Err::<Frame, MemoryError>(MemoryError::NotEnoughPhyMemory)
                        &&& final(self).bits() == old(self).bits()
                        &&& final(self).next_free() == n
                    },
                    Some(a) => {
                        &&& final(self).bits() == old(self).bits().update(n, true)
                        &&& match next_clear(final(self).bits(), n) {
                            Some(m) => {
                                &&& r matches Ok(f) && f@ == a / FRAME_PAGE_SIZE as int
                                &&& final(self).next_free() == m
                                &&& !final(self).bits()[m]
                                &&& areas_disjoint(old(self).areas()) ==> addr_to_bit(old(self).areas(), a) == Some(n)
                            },
                            None => {
                                &&& r == Err::<Frame, MemoryError>(MemoryError::NotEnoughPhyMemory)
                                &&& final(self).next_free() == n
                            },
                        }
                    },
                }
            }),
    {
        let frame = match self.0.bit_idx_to_frame(self.0.next_free_frame) {
            Some(f) => f,
            None => {
                return Err(MemoryError::NotEnoughPhyMemory);
            },
        };
        let n = self.0.next_free_frame;
        let mut bitmap = self.0.bitmap.take().unwrap();
        bitmap.set(n, true);
        self.0.bitmap = Some(bitmap);
        proof {
            lemma_next_clear(self.0.bitmap->0@, n as int);
            if areas_disjoint(self.0.areas@) {
                lemma_bit_addr_roundtrip(self.0.areas@, n as int);
            }
        }
        match self.0.get_next_free_frame() {
            None => Err(MemoryError::NotEnoughPhyMemory),
            Some(m) => {
                self.0.next_free_frame = m;
                Ok(frame)
            },
        }
    }

    /// Deallocates `frame`: its bit, which must be set, is cleared.
    pub fn deallocate_frame(&mut self, frame: Frame)
        requires
            old(self).wf(),
            old(self).is_initialized(),
            addr_to_bit(old(self).areas(), frame@ * FRAME_PAGE_SIZE) matches Some(b) && b < old(self).bits().len()
                && old(self).bits()[b],
        ensures
            final(self).wf(),
            final(self).is_initialized(),
            final(self).areas() == old(self).areas(),
            final(self).next_free() == old(self).next_free(),
            final(self).metadata_range() == old(self).metadata_range(),
            final(self).bits() == old(self).bits().update(addr_to_bit(old(self).areas(), frame@ * FRAME_PAGE_SIZE)->0, false),
    {
        let bit_idx = match self.0.frame_to_bit_idx(frame) {
            Some(b) => b,
            None => {
                proof {
                    assert(false);
                }
                0
            },
        };
        let mut bitmap = self.0.bitmap.take().unwrap();
        bitmap.set(bit_idx, false);
        self.0.bitmap = Some(bitmap);
    }

    /// The memory that the bitmap takes, which must stay mapped and must not be allocated.
    pub fn prohibited_memory_range(&self) -> (r: Option<ProhibitedMemoryRange>)
        ensures
            r == Some(self.metadata_range()),
    {
        Some(self.0.prohibited_mem_range)
    }
}

/// No two areas share an address.
pub open spec fn areas_disjoint(areas: Seq<(u64, u64)>) -> bool {
    forall|i: int, j: int|
        0 <= i < j < areas.len() ==> (#[trigger] areas[i]).0 + areas[i].1 <= (#[trigger] areas[j]).0 || areas[j].0
            + areas[j].1 <= areas[i].0
}

/// The frames that areas `j..i` hold together.
pub open spec fn frames_between(areas: Seq<(u64, u64)>, j: int, i: int) -> int
    decreases i - j,
{
    if j >= i {
        0
    } else {
        areas[j].1 as int / FRAME_PAGE_SIZE as int + frames_between(areas, j + 1, i)
    }
}

/// The areas hold no negative number of frames.
proof fn lemma_frames_between_nonneg(areas: Seq<(u64, u64)>, j: int, i: int)
    ensures
        frames_between(areas, j, i) >= 0,
    decreases i - j,
{
    if j < i {
        lemma_frames_between_nonneg(areas, j + 1, i);
    }
}

/// An address inside area `i` has its bit there: after the frames of the areas before it, at its frame's
/// place in the area.
proof fn lemma_addr_to_bit_in_area(areas: Seq<(u64, u64)>, addr: int, j: int, i: int, acc: int)
    requires
        areas_disjoint(areas),
        0 <= j <= i < areas.len(),
        areas[i].0 <= addr < areas[i].0 + areas[i].1,
    ensures
        addr_to_bit_from(areas, addr, j, acc) == Some(acc + frames_between(areas, j, i) + (addr - areas[i].0) / FRAME_PAGE_SIZE as int),
    decreases i - j,
{
    if j < i {
        assert(areas[j].0 + areas[j].1 <= areas[i].0 || areas[i].0 + areas[i].1 <= areas[j].0);
        lemma_addr_to_bit_in_area(areas, addr, j + 1, i, acc + areas[j].1 as int / FRAME_PAGE_SIZE as int);
    }
}

/// After `init`, every frame of a prohibited range that lies inside one usable area is marked in use: the
/// bits that `init` marks for the range are exactly the bits of its frames.
pub proof fn law_init_marks_prohibited_frames(
    areas: Seq<(u64, u64)>,
    ranges: Seq<(u64, u64)>,
    bitmap_start: int,
    bytes: int,
    k: int,
    i: int,
    addr: int,
)
    requires
        areas_wf(areas),
        areas_disjoint(areas),
        0 <= k < ranges.len(),
        0 <= i < areas.len(),
        areas[i].0 <= ranges[k].0,
        ranges[k].1 < areas[i].0 + areas[i].1,
        ranges[k].0 % FRAME_PAGE_SIZE == 0,
        range_fits(areas, ranges[k].0 as int, ranges[k].1 as int, bytes * 8),
        ranges[k].0 <= addr <= ranges[k].1,
    ensures
        addr_to_bit(areas, addr) matches Some(b) && marked_bits(
            (bytes * 8) as nat,
            init_marks(areas, ranges, bitmap_start, bytes),
        )[b],
{
    let start = ranges[k].0 as int;
    let end = ranges[k].1 as int;
    let ai = areas[i].0 as int;
    lemma_addr_to_bit_in_area(areas, addr, 0, i, 0);
    lemma_addr_to_bit_in_area(areas, start, 0, i, 0);
    let p = frames_between(areas, 0, i);
    let b = p + (addr - ai) / FRAME_PAGE_SIZE as int;
    let bs = p + (start - ai) / FRAME_PAGE_SIZE as int;
    let count = align_up_spec(end - start + 1, FRAME_PAGE_SIZE as int) / FRAME_PAGE_SIZE as int;
    assert(ai % 4096 == 0);
    // the range's frames follow each other from the range's first bit
    assert((addr - ai) / 4096 == (start - ai) / 4096 + (addr - start) / 4096) by {
        vstd::arithmetic::div_mod::lemma_fundamental_div_mod(start - ai, 4096);
        vstd::arithmetic::div_mod::lemma_sub_mod_noop(start, ai, 4096);
        let q = (start - ai) / 4096;
        assert(start - ai == 4096 * q);
        vstd::arithmetic::div_mod::lemma_div_multiples_vanish_fancy(q, 0, 4096);
        vstd::arithmetic::div_mod::lemma_fundamental_div_mod(addr - start, 4096);
        let q2 = (addr - start) / 4096;
        let r2 = (addr - start) % 4096;
        assert(addr - ai == 4096 * (q + q2) + r2);
        vstd::arithmetic::div_mod::lemma_div_multiples_vanish_fancy(q + q2, r2, 4096);
    }
    assert((addr - start) / 4096 < count) by {
        vstd::arithmetic::div_mod::lemma_fundamental_div_mod(end - start + 1, 4096);
        vstd::arithmetic::div_mod::lemma_div_is_ordered(addr - start, end - start, 4096);
        let x = end - start + 1;
        if x % 4096 == 0 {
            vstd::arithmetic::div_mod::lemma_div_is_ordered(end - start, x, 4096);
            vstd::arithmetic::div_mod::lemma_fundamental_div_mod(end - start, 4096);
            assert((end - start) / 4096 < x / 4096) by (nonlinear_arith)
                requires
                    x == 4096 * (x / 4096),
                    end - start == 4096 * ((end - start) / 4096) + (end - start) % 4096,
                    0 <= (end - start) % 4096 < 4096,
                    x == end - start + 1,
            ;
        } else {
            assert(align_up_spec(x, 4096) == x - x % 4096 + 4096);
            vstd::arithmetic::div_mod::lemma_div_multiples_vanish_fancy(x / 4096 + 1, 0, 4096);
            assert(x - x % 4096 + 4096 == 4096 * (x / 4096 + 1));
            assert(count == x / 4096 + 1);
            vstd::arithmetic::div_mod::lemma_div_is_ordered(end - start, x, 4096);
        }
    }
    let marks = init_marks(areas, ranges, bitmap_start, bytes);
    assert(marks[k] == range_marks(areas, start, end));
    assert(range_marks(areas, start, end) == (bs, count));
    assert(bs <= b < bs + count);
    assert(marks[k].0 <= b < marks[k].0 + marks[k].1);
    lemma_frames_between_nonneg(areas, 0, i);
    assert(0 <= b < bytes * 8);
    let bits = marked_bits((bytes * 8) as nat, marks);
    assert(bits[b] == exists|k2: int| 0 <= k2 < marks.len() && (#[trigger] marks[k2]).0 <= b < marks[k2].0 + marks[k2].1);
}

/// The frame of a bit lies in an area at or after `i`.
proof fn lemma_bit_to_addr_in_area(areas: Seq<(u64, u64)>, b: int, i: int)
    requires
        areas_wf(areas),
        bit_to_addr_from(areas, b, i) is Some,
    ensures
        exists|k: int|
            i <= k < areas.len() && (#[trigger] areas[k]).0 <= bit_to_addr_from(areas, b, i)->0 && bit_to_addr_from(
                areas,
                b,
                i,
            )->0 + FRAME_PAGE_SIZE <= areas[k].0 + areas[k].1,
    decreases areas.len() - i,
{
    let f = areas[i].1 as int / FRAME_PAGE_SIZE as int;
    if b < f {
        assert(b * FRAME_PAGE_SIZE + FRAME_PAGE_SIZE <= areas[i].1) by (nonlinear_arith)
            requires
                b < f,
                f == areas[i].1 as int / FRAME_PAGE_SIZE as int,
                0 <= b,
        ;
    } else {
        lemma_bit_to_addr_in_area(areas, b - f, i + 1);
    }
}

/// Going from a bit to its frame and back gives the bit again, when no two areas overlap.
proof fn lemma_bit_addr_roundtrip_from(areas: Seq<(u64, u64)>, b: int, i: int, acc: int)
    requires
        areas_wf(areas),
        areas_disjoint(areas),
        0 <= i,
        bit_to_addr_from(areas, b, i) is Some,
    ensures
        addr_to_bit_from(areas, bit_to_addr_from(areas, b, i)->0, i, acc) == Some(acc + b),
    decreases areas.len() - i,
{
    let f = areas[i].1 as int / FRAME_PAGE_SIZE as int;
    let a = bit_to_addr_from(areas, b, i)->0;
    if b < f {
        assert(b * FRAME_PAGE_SIZE + FRAME_PAGE_SIZE <= areas[i].1) by (nonlinear_arith)
            requires
                b < f,
                f == areas[i].1 as int / FRAME_PAGE_SIZE as int,
                0 <= b,
        ;
        assert((a - areas[i].0) / FRAME_PAGE_SIZE as int == b) by {
            vstd::arithmetic::div_mod::lemma_div_multiples_vanish(b, FRAME_PAGE_SIZE as int);
        }
    } else {
        lemma_bit_to_addr_in_area(areas, b - f, i + 1);
        let k = choose|k: int|
            i + 1 <= k < areas.len() && (#[trigger] areas[k]).0 <= a && a + FRAME_PAGE_SIZE <= areas[k].0 + areas[k].1;
        assert(areas[i].0 + areas[i].1 <= areas[k].0 || areas[k].0 + areas[k].1 <= areas[i].0);
        lemma_bit_addr_roundtrip_from(areas, b - f, i + 1, acc + f);
    }
}

/// The frame that bit `b` stands for has bit `b`: no two bits stand for one frame, when no two areas overlap.
pub proof fn lemma_bit_addr_roundtrip(areas: Seq<(u64, u64)>, b: int)
    requires
        areas_wf(areas),
        areas_disjoint(areas),
        bit_to_addr(areas, b) is Some,
    ensures
        addr_to_bit(areas, bit_to_addr(areas, b)->0) == Some(b),
        bit_to_addr(areas, b)->0 % FRAME_PAGE_SIZE as int == 0,
{
    lemma_bit_addr_roundtrip_from(areas, b, 0, 0);
    lemma_bit_to_addr_aligned(areas, b, 0);
}

/// The frames of a list of areas are those of its first area and those of the others.
proof fn lemma_frames_sum_first(s: Seq<(u64, u64)>)
    requires
        s.len() > 0,
    ensures
        frames_sum(s) == s[0].1 as int / FRAME_PAGE_SIZE as int + frames_sum(s.drop_first()),
    decreases s.len(),
{
    if s.len() > 1 {
        let d = s.drop_last();
        let t = s.drop_first();
        lemma_frames_sum_first(d);
        assert(d.drop_first() =~= t.drop_last());
        assert(t.last() == s.last());
        assert(d[0] == s[0]);
        assert(frames_sum(t) == frames_sum(t.drop_last()) + t.last().1 as int / FRAME_PAGE_SIZE as int);
        assert(frames_sum(s) == frames_sum(d) + s.last().1 as int / FRAME_PAGE_SIZE as int);
    } else {
        assert(s.drop_first().len() == 0);
        assert(s.drop_last().len() == 0);
        assert(s.last() == s[0]);
        assert(frames_sum(s) == frames_sum(s.drop_last()) + s.last().1 as int / FRAME_PAGE_SIZE as int);
    }
}

/// Looking from area `i` on, bit `b` stands for a frame exactly when it is below the number of frames
/// of those areas.
proof fn lemma_bit_to_addr_some(areas: Seq<(u64, u64)>, b: int, i: int)
    requires
        0 <= i <= areas.len(),
    ensures
        bit_to_addr_from(areas, b, i) is Some <==> 0 <= b < frames_sum(areas.subrange(i, areas.len() as int)),
    decreases areas.len() - i,
{
    let sub = areas.subrange(i, areas.len() as int);
    if i == areas.len() {
        assert(sub.len() == 0);
    } else {
        lemma_frames_sum_first(sub);
        assert(sub.drop_first() =~= areas.subrange(i + 1, areas.len() as int));
        assert(sub[0] == areas[i]);
        assert(frames_sum(sub) == areas[i].1 as int / FRAME_PAGE_SIZE as int + frames_sum(areas.subrange(i + 1, areas.len() as int)));
        lemma_frames_sum_nonneg(areas.subrange(i + 1, areas.len() as int));
        lemma_bit_to_addr_some(areas, b - areas[i].1 as int / FRAME_PAGE_SIZE as int, i + 1);
    }
}

/// Every bit below the number of usable frames stands for a frame, at a frame boundary, whose bit is
/// that bit again, when no two areas overlap.
pub proof fn law_frame_bit_roundtrip(areas: Seq<(u64, u64)>, b: int)
    requires
        areas_wf(areas),
        areas_disjoint(areas),
        0 <= b < frames_sum(areas),
    ensures
        bit_to_addr(areas, b) matches Some(a) && addr_to_bit(areas, a) == Some(b) && a % FRAME_PAGE_SIZE as int == 0,
{
    assert(areas.subrange(0, areas.len() as int) =~= areas);
    lemma_bit_to_addr_some(areas, b, 0);
    lemma_bit_addr_roundtrip(areas, b);
}

/// Looking from area `i` on, an address in none of those areas has no bit.
proof fn lemma_outside_no_bit_from(areas: Seq<(u64, u64)>, a: int, i: int, acc: int)
    requires
        forall|k: int| 0 <= k < areas.len() ==> !((#[trigger] areas[k]).0 <= a <= areas[k].0 + areas[k].1 - 1),
    ensures
        addr_to_bit_from(areas, a, i, acc) is None,
    decreases areas.len() - i,
{
    if 0 <= i < areas.len() {
        assert(!(areas[i].0 <= a <= areas[i].0 + areas[i].1 - 1));
        lemma_outside_no_bit_from(areas, a, i + 1, acc + areas[i].1 as int / FRAME_PAGE_SIZE as int);
    }
}

/// An address that lies in no usable area has no bit.
pub proof fn law_outside_areas_no_bit(areas: Seq<(u64, u64)>, a: int)
    requires
        forall|k: int| 0 <= k < areas.len() ==> !((#[trigger] areas[k]).0 <= a <= areas[k].0 + areas[k].1 - 1),
    ensures
        addr_to_bit(areas, a) is None,
{
    lemma_outside_no_bit_from(areas, a, 0, 0);
}

proof fn lemma_bit_to_addr_aligned(areas: Seq<(u64, u64)>, b: int, i: int)
    requires
        areas_wf(areas),
        bit_to_addr_from(areas, b, i) is Some,
    ensures
        bit_to_addr_from(areas, b, i)->0 % FRAME_PAGE_SIZE as int == 0,
    decreases areas.len() - i,
{
    let f = areas[i].1 as int / FRAME_PAGE_SIZE as int;
    if b < f {
        vstd::arithmetic::div_mod::lemma_mod_multiples_vanish(b, areas[i].0 as int, FRAME_PAGE_SIZE as int);
    } else {
        lemma_bit_to_addr_aligned(areas, b - f, i + 1);
    }
}

/// A frame whose bit is set is never the frame of a clear bit: when the allocator hands out the frame
/// of a clear bit, it is neither a frame of a prohibited range nor a frame of the bitmap (which `init`
/// set), nor any frame handed out before and not given back.
pub proof fn lemma_clear_bit_frame_is_not_marked(areas: Seq<(u64, u64)>, bits: Seq<bool>, n: int, q: int)
    requires
        areas_wf(areas),
        areas_disjoint(areas),
        0 <= n < bits.len(),
        !bits[n],
        bit_to_addr(areas, n) is Some,
        0 <= q,
        addr_to_bit(areas, q) matches Some(b) && 0 <= b < bits.len() && bits[b],
    ensures
        bit_to_addr(areas, n)->0 / FRAME_PAGE_SIZE as int != q / FRAME_PAGE_SIZE as int,
{
    let a = bit_to_addr(areas, n)->0;
    lemma_bit_addr_roundtrip(areas, n);
    lemma_bit_to_addr_in_area(areas, n, 0);
    if a / FRAME_PAGE_SIZE as int == q / FRAME_PAGE_SIZE as int {
        lemma_same_frame_same_bit(areas, a, q, 0, 0);
    }
}

/// Two addresses of one frame have the same bit.
proof fn lemma_same_frame_same_bit(areas: Seq<(u64, u64)>, a: int, q: int, i: int, acc: int)
    requires
        areas_wf(areas),
        a / FRAME_PAGE_SIZE as int == q / FRAME_PAGE_SIZE as int,
        0 <= a,
        0 <= q,
    ensures
        addr_to_bit_from(areas, a, i, acc) == addr_to_bit_from(areas, q, i, acc),
    decreases areas.len() - i,
{
    if 0 <= i < areas.len() {
        let s = areas[i].0 as int;
        let l = areas[i].1 as int;
        let p = FRAME_PAGE_SIZE as int;
        // the area's ends are frame boundaries, so both addresses are in it or neither is
        assert((s <= a <= s + l - 1) == (s <= q <= s + l - 1) && (s <= a <= s + l - 1 ==> (a - s) / p == (q - s) / p)) by {
            vstd::arithmetic::div_mod::lemma_fundamental_div_mod(a, p);
            vstd::arithmetic::div_mod::lemma_fundamental_div_mod(q, p);
            vstd::arithmetic::div_mod::lemma_fundamental_div_mod(s, p);
            vstd::arithmetic::div_mod::lemma_fundamental_div_mod(s + l, p);
            vstd::arithmetic::div_mod::lemma_mod_bound(a, p);
            vstd::arithmetic::div_mod::lemma_mod_bound(q, p);
            let fa = a / p;
            let fs = s / p;
            let fe = (s + l) / p;
            assert(s == fs * p);
            assert(s + l == fe * p) by {
                vstd::arithmetic::div_mod::lemma_mod_adds(s, l, p);
            }
            assert((s <= a) == (fs <= fa)) by (nonlinear_arith)
                requires
                    s == fs * p,
                    a == p * fa + a % p,
                    0 <= a % p < p,
                    p > 0,
            ;
            assert((s <= q) == (fs <= fa)) by (nonlinear_arith)
                requires
                    s == fs * p,
                    q == p * fa + q % p,
                    0 <= q % p < p,
                    p > 0,
            ;
            assert((a <= s + l - 1) == (fa < fe)) by (nonlinear_arith)
                requires
                    s + l == fe * p,
                    a == p * fa + a % p,
                    0 <= a % p < p,
                    p > 0,
            ;
            assert((q <= s + l - 1) == (fa < fe)) by (nonlinear_arith)
                requires
                    s + l == fe * p,
                    q == p * fa + q % p,
                    0 <= q % p < p,
                    p > 0,
            ;
            if s <= a {
                vstd::arithmetic::div_mod::lemma_div_multiples_vanish_fancy(fa - fs, a % p, p);
                vstd::arithmetic::div_mod::lemma_div_multiples_vanish_fancy(fa - fs, q % p, p);
                assert(a - s == (fa - fs) * p + a % p) by (nonlinear_arith)
                    requires
                        s == fs * p,
                        a == p * fa + a % p,
                ;
                assert(q - s == (fa - fs) * p + q % p) by (nonlinear_arith)
                    requires
                        s == fs * p,
                        q == p * fa + q % p,
                ;
            }
        }
        lemma_same_frame_same_bit(areas, a, q, i + 1, acc + l / p);
    }
}

/// The bit that follows is a bit of the bitmap.
pub proof fn lemma_next_clear(bits: Seq<bool>, n: int)
    requires
        0 <= n,
    ensures
        next_clear(bits, n) matches Some(m) ==> 0 <= m < bits.len() && !bits[m],
{
    lemma_first_clear(bits, n + 1, bits.len() as int);
    lemma_first_clear(bits, 0, if n < bits.len() { n } else { bits.len() as int });
}

/// Marking a run of no bits changes nothing.
proof fn lemma_mark_none(len: nat, marks: Seq<(int, int)>, b: int)
    ensures
        marked_bits(len, marks.push((b, 0))) == marked_bits(len, marks),
{
    assert forall|j: int| 0 <= j < len implies marked_bits(len, marks.push((b, 0)))[j] == marked_bits(len, marks)[j] by {
        if marked_bits(len, marks.push((b, 0)))[j] {
            let k = choose|k: int| 0 <= k < marks.push((b, 0)).len() && (#[trigger] marks.push((b, 0))[k]).0 <= j < marks.push((b, 0))[k].0 + marks.push((b, 0))[k].1;
            assert(marks[k] == marks.push((b, 0))[k]);
        }
        if marked_bits(len, marks)[j] {
            let k = choose|k: int| 0 <= k < marks.len() && (#[trigger] marks[k]).0 <= j < marks[k].0 + marks[k].1;
            assert(marks.push((b, 0))[k] == marks[k]);
        }
    }
    assert(marked_bits(len, marks.push((b, 0))) =~= marked_bits(len, marks));
}

/// Setting the bit right after a marked run extends the run by one.
proof fn lemma_mark_one(len: nat, marks: Seq<(int, int)>, b: int, i: int)
    requires
        0 <= b,
        0 <= i,
        b + i < len,
    ensures
        marked_bits(len, marks.push((b, i))).update(b + i, true) == marked_bits(len, marks.push((b, i + 1))),
{
    let m1 = marks.push((b, i));
    let m2 = marks.push((b, i + 1));
    assert forall|j: int| 0 <= j < len implies marked_bits(len, m1).update(b + i, true)[j] == marked_bits(len, m2)[j] by {
        if j == b + i {
            assert(m2[marks.len() as int] == (b, i + 1));
        } else {
            if marked_bits(len, m1)[j] {
                let k = choose|k: int| 0 <= k < m1.len() && (#[trigger] m1[k]).0 <= j < m1[k].0 + m1[k].1;
                if k < marks.len() {
                    assert(m2[k] == m1[k]);
                } else {
                    assert(m2[marks.len() as int] == (b, i + 1));
                }
            }
            if marked_bits(len, m2)[j] {
                let k = choose|k: int| 0 <= k < m2.len() && (#[trigger] m2[k]).0 <= j < m2[k].0 + m2[k].1;
                if k < marks.len() {
                    assert(m1[k] == m2[k]);
                } else {
                    assert(m1[marks.len() as int] == (b, i));
                }
            }
        }
    }
    assert(marked_bits(len, m1).update(b + i, true) =~= marked_bits(len, m2));
}

/// The bitmap of at least one frame takes at least one byte, and never more bytes than there are frames.
proof fn lemma_bitmap_bytes_bounds(frames: int)
    requires
        frames >= 1,
    ensures
        1 <= bitmap_bytes(frames) <= frames,
{
    vstd::arithmetic::div_mod::lemma_fundamental_div_mod(frames, 8);
}

/// The entries of available RAM are among the entries, so they lie in range too.
proof fn lemma_usable_in_range(entries: Seq<MemoryMapEntry>)
    requires
        entries_in_range(entries),
    ensures
        forall|k: int|
            0 <= k < MemoryMapEntries::usable_spec(entries).len() ==> entry_in_range(
                #[trigger] MemoryMapEntries::usable_spec(entries)[k],
                FRAME_PAGE_SIZE,
            ),
{
    MemoryMapEntries::lemma_usable_from_entries(entries);
    assert forall|k: int| 0 <= k < MemoryMapEntries::usable_spec(entries).len() implies entry_in_range(
        #[trigger] MemoryMapEntries::usable_spec(entries)[k],
        FRAME_PAGE_SIZE,
    ) by {
        let e = MemoryMapEntries::usable_spec(entries)[k];
        assert(entries.contains(e));
        let j = choose|j: int| 0 <= j < entries.len() && entries[j] == e;
        assert(entry_in_range(entries[j], FRAME_PAGE_SIZE));
    }
}

/// The aligned view of an area in range is a well formed area.
proof fn lemma_area_view_wf(e: MemoryMapEntry)
    requires
        entry_in_range(e, FRAME_PAGE_SIZE),
    ensures
        ({
            let (s, l) = area_view(e);
            &&& s % FRAME_PAGE_SIZE as int == 0
            &&& l % FRAME_PAGE_SIZE as int == 0
            &&& 0 <= s
            &&& 0 <= l
            &&& s + l <= u64::MAX
        }),
{
    let b = e.base_addr as int;
    let a = FRAME_PAGE_SIZE as int;
    vstd::arithmetic::div_mod::lemma_fundamental_div_mod(b, a);
    vstd::arithmetic::div_mod::lemma_fundamental_div_mod(b + e.length, a);
    vstd::arithmetic::div_mod::lemma_mod_multiples_basic(b / a, a);
    vstd::arithmetic::div_mod::lemma_mod_multiples_basic((b + e.length) / a, a);
    if b % a != 0 {
        vstd::arithmetic::div_mod::lemma_mod_multiples_basic(b / a + 1, a);
    }
}

/// The frame count of the first areas, prefix by prefix.
proof fn lemma_frames_sum_prefix(areas: Seq<(u64, u64)>, i: int)
    requires
        0 <= i <= areas.len(),
    ensures
        i == 0 ==> frames_sum(areas.take(i)) == 0,
        i > 0 ==> frames_sum(areas.take(i)) == frames_sum(areas.take(i - 1)) + areas[i - 1].1 as int / FRAME_PAGE_SIZE as int,
{
    if i > 0 {
        assert(areas.take(i).drop_last() =~= areas.take(i - 1));
    }
}

/// A prefix of the areas holds no more frames than all of them.
proof fn lemma_frames_sum_take_bound(areas: Seq<(u64, u64)>, i: int)
    requires
        0 <= i <= areas.len(),
    ensures
        0 <= frames_sum(areas.take(i)) <= frames_sum(areas),
    decreases areas.len() - i,
{
    if i < areas.len() {
        lemma_frames_sum_take_bound(areas, i + 1);
        lemma_frames_sum_prefix(areas, i + 1);
    } else {
        assert(areas.take(i) =~= areas);
    }
    lemma_frames_sum_nonneg(areas.take(i));
}

proof fn lemma_frames_sum_nonneg(areas: Seq<(u64, u64)>)
    ensures
        frames_sum(areas) >= 0,
    decreases areas.len(),
{
    if areas.len() > 0 {
        lemma_frames_sum_nonneg(areas.drop_last());
    }
}

/// The frames that the bitmap hands out: those of the set bits, but the bit that the next allocation
/// starts from (which an allocation that found no further free frame leaves set).
pub open spec fn frames_in_use(areas: Seq<(u64, u64)>, bits: Seq<bool>, next_free: int) -> Set<u64> {
    Set::new(|f: u64| exists|b: int| 0 <= b < bits.len() && b != next_free && #[trigger] bits[b]
        && bit_to_addr(areas, b) == Some(f * FRAME_PAGE_SIZE as int))
}

/// Every area ends at or below the physical address `limit`.
pub open spec fn areas_below(areas: Seq<(u64, u64)>, limit: int) -> bool {
    forall|k: int| 0 <= k < areas.len() ==> (#[trigger] areas[k]).0 + areas[k].1 <= limit
}

/// A bit's frame lies inside the areas.
proof fn lemma_bit_to_addr_below(areas: Seq<(u64, u64)>, b: int, i: int, limit: int)
    requires
        areas_wf(areas),
        areas_below(areas, limit),
        bit_to_addr_from(areas, b, i) is Some,
    ensures
        bit_to_addr_from(areas, b, i)->0 + FRAME_PAGE_SIZE <= limit,
    decreases areas.len() - i,
{
    if b < areas[i].1 as int / FRAME_PAGE_SIZE as int {
        assert(b * FRAME_PAGE_SIZE + FRAME_PAGE_SIZE <= areas[i].1) by (nonlinear_arith)
            requires
                b < areas[i].1 as int / 4096,
                areas[i].1 % 4096 == 0,
                0 <= b,
        ;
    } else {
        lemma_bit_to_addr_below(areas, b - areas[i].1 as int / FRAME_PAGE_SIZE as int, i + 1, limit);
    }
}

/// Two bits that give the same frame are the same bit.
proof fn lemma_bit_to_addr_injective(areas: Seq<(u64, u64)>, b1: int, b2: int)
    requires
        areas_wf(areas),
        areas_disjoint(areas),
        bit_to_addr(areas, b1) is Some,
        bit_to_addr(areas, b1) == bit_to_addr(areas, b2),
    ensures
        b1 == b2,
{
    lemma_bit_addr_roundtrip(areas, b1);
    lemma_bit_addr_roundtrip(areas, b2);
}

/// The next `k` allocations from bit `n` of `bits` succeed: each finds a frame for its bit and a clear
/// bit after it.
pub open spec fn hands_out(areas: Seq<(u64, u64)>, bits: Seq<bool>, n: int, k: nat) -> bool
    decreases k,
{
    if k == 0 {
        true
    } else {
        &&& bit_to_addr(areas, n) is Some
        &&& match next_clear(bits.update(n, true), n) {
            Some(m) => hands_out(areas, bits.update(n, true), m, (k - 1) as nat),
            None => false,
        }
    }
}

/// Handing out `k + 1` frames includes handing out `k`.
proof fn lemma_hands_out_fewer(areas: Seq<(u64, u64)>, bits: Seq<bool>, n: int, k: nat)
    requires
        hands_out(areas, bits, n, k + 1),
    ensures
        hands_out(areas, bits, n, k),
    decreases k,
{
    if k > 0 {
        let m = next_clear(bits.update(n, true), n)->0;
        lemma_hands_out_fewer(areas, bits.update(n, true), m, (k - 1) as nat);
    }
}

impl<'a> FrameAllocator for BitmapFrameAllocator<'a> {
    /// Initialized, consistent, and with usable areas that do not overlap and lie in the 52 bits of
    /// physical address.
    open spec fn ready(&self) -> bool {
        &&& self.wf()
        &&& self.is_initialized()
        &&& areas_disjoint(self.areas())
        &&& areas_below(self.areas(), 0x10_0000_0000_0000)
    }

    open spec fn in_use(&self) -> Set<u64> {
        frames_in_use(self.areas(), self.bits(), self.next_free())
    }

    open spec fn can_hand_out(&self, k: nat) -> bool {
        hands_out(self.areas(), self.bits(), self.next_free(), k)
    }

    proof fn lemma_can_hand_out_fewer(&self, k: nat) {
        lemma_hands_out_fewer(self.areas(), self.bits(), self.next_free(), k);
    }

    fn allocate_frame(&mut self) -> (r: Result<Frame, MemoryError>) {
        let ghost old_in_use = self.in_use();
        let ghost bits0 = self.bits();
        let ghost n = self.next_free();
        let ghost areas = self.areas();
        let r = BitmapFrameAllocator::allocate_frame(self);
        proof {
            let bits1 = self.bits();
            match bit_to_addr(areas, n) {
                None => {
                    assert(self.in_use() =~= old_in_use);
                },
                Some(a) => {
                    lemma_bit_addr_roundtrip(areas, n);
                    lemma_next_clear(bits1, n);
                    match r {
                        Ok(f) => {
                            assert(f@ * FRAME_PAGE_SIZE == a);
                            lemma_bit_to_addr_below(areas, n, 0, 0x10_0000_0000_0000);
                            if old_in_use.contains(f@) {
                                let b = choose|b: int| 0 <= b < bits0.len() && b != n && #[trigger] bits0[b]
                                    && bit_to_addr(areas, b) == Some(f@ * FRAME_PAGE_SIZE as int);
                                lemma_bit_to_addr_injective(areas, n, b);
                            }
                            let m = self.next_free();
                            assert(m != n);
                            assert forall|g: u64| #[trigger] self.in_use().contains(g) <==> old_in_use.insert(f@).contains(g) by {
                                if self.in_use().contains(g) {
                                    let b = choose|b: int| 0 <= b < bits1.len() && b != m && #[trigger] bits1[b]
                                        && bit_to_addr(areas, b) == Some(g * FRAME_PAGE_SIZE as int);
                                    if b == n {
                                        assert(g * FRAME_PAGE_SIZE == f@ * FRAME_PAGE_SIZE);
                                    } else {
                                        assert(bits0[b]);
                                    }
                                }
                                if old_in_use.insert(f@).contains(g) {
                                    if g == f@ {
                                        assert(bits1[n]);
                                    } else {
                                        let b = choose|b: int| 0 <= b < bits0.len() && b != n && #[trigger] bits0[b]
                                            && bit_to_addr(areas, b) == Some(g * FRAME_PAGE_SIZE as int);
                                        assert(bits1[b]);
                                    }
                                }
                            }
                            assert(self.in_use() =~= old_in_use.insert(f@));
                        },
                        Err(_) => {
                            assert forall|g: u64| #[trigger] self.in_use().contains(g) <==> old_in_use.contains(g) by {
                                if self.in_use().contains(g) {
                                    let b = choose|b: int| 0 <= b < bits1.len() && b != n && #[trigger] bits1[b]
                                        && bit_to_addr(areas, b) == Some(g * FRAME_PAGE_SIZE as int);
                                    assert(bits0[b]);
                                }
                                if old_in_use.contains(g) {
                                    let b = choose|b: int| 0 <= b < bits0.len() && b != n && #[trigger] bits0[b]
                                        && bit_to_addr(areas, b) == Some(g * FRAME_PAGE_SIZE as int);
                                    assert(bits1[b]);
                                }
                            }
                            assert(self.in_use() =~= old_in_use);
                        },
                    }
                },
            }
        }
        r
    }

    fn deallocate_frame(&mut self, frame: Frame) {
        let ghost old_in_use = self.in_use();
        let ghost bits0 = self.bits();
        let ghost n = self.next_free();
        let ghost areas = self.areas();
        let ghost b = choose|b: int| 0 <= b < bits0.len() && b != n && #[trigger] bits0[b]
            && bit_to_addr(areas, b) == Some(frame@ * FRAME_PAGE_SIZE as int);
        proof {
            lemma_bit_addr_roundtrip(areas, b);
        }
        BitmapFrameAllocator::deallocate_frame(self, frame);
        proof {
            let bits1 = self.bits();
            assert(bits1 == bits0.update(b, false));
            assert forall|g: u64| #[trigger] self.in_use().contains(g) <==> old_in_use.remove(frame@).contains(g) by {
                if self.in_use().contains(g) {
                    let c = choose|c: int| 0 <= c < bits1.len() && c != n && #[trigger] bits1[c]
                        && bit_to_addr(areas, c) == Some(g * FRAME_PAGE_SIZE as int);
                    assert(c != b);
                    assert(bits0[c]);
                    if g == frame@ {
                        lemma_bit_to_addr_injective(areas, b, c);
                    }
                }
                if old_in_use.remove(frame@).contains(g) {
                    let c = choose|c: int| 0 <= c < bits0.len() && c != n && #[trigger] bits0[c]
                        && bit_to_addr(areas, c) == Some(g * FRAME_PAGE_SIZE as int);
                    if c == b {
                        assert(g * FRAME_PAGE_SIZE == frame@ * FRAME_PAGE_SIZE);
                    }
                    assert(bits1[c]);
                }
            }
            assert(self.in_use() =~= old_in_use.remove(frame@));
        }
    }
}

} // verus!
