//! The paging context: the tree of page tables (P4 down to P1) that maps pages to frames.
//
// The tables live in frames handed out by a frame allocator. Here every table is held by the entry that
// points to it, so the tables form a tree: a P4 table holds up to 512 P3 tables, and so on down to the P1
// tables, whose entries point to the mapped frames.
use vstd::prelude::*;
use crate::memory::{MemoryError, PhysicalAddress, VirtualAddress, FRAME_PAGE_SIZE};
use crate::memory::frames::{frame_fits, Frame, FrameAllocator};
use crate::memory::pages::{is_canonical, Page};
use crate::memory::pages::page_table::{entry_phy_addr, entry_set_value, lemma_entry_set_then_read, Entry, EntryFlags, ENTRY_ADDR_MASK, ENTRY_COUNT};

pub mod inactive_paging_context;

verus! {

/// How many entries of `s` are used (not 0).
pub open spec fn count_used(s: Seq<u64>) -> nat
    decreases s.len(),
{
    if s.len() == 0 {
        0
    } else {
        count_used(s.drop_last()) + if s.last() != 0 { 1nat } else { 0nat }
    }
}

/// Changing one entry changes the count of used entries by what that entry changed.
proof fn lemma_count_used_update(s: Seq<u64>, i: int, v: u64)
    requires
        0 <= i < s.len(),
    ensures
        count_used(s.update(i, v)) + (if s[i] != 0 { 1int } else { 0int }) == count_used(s) + (if v != 0 { 1int } else { 0int }),
    decreases s.len(),
{
    if i < s.len() - 1 {
        lemma_count_used_update(s.drop_last(), i, v);
        assert(s.update(i, v).drop_last() =~= s.drop_last().update(i, v));
    } else {
        assert(s.update(i, v).drop_last() =~= s.drop_last());
    }
}

/// At most every entry is used, and none is used exactly when the count is 0.
proof fn lemma_count_used_bounds(s: Seq<u64>)
    ensures
        count_used(s) <= s.len(),
        count_used(s) == 0 <==> forall|i: int| 0 <= i < s.len() ==> s[i] == 0,
    decreases s.len(),
{
    if s.len() > 0 {
        lemma_count_used_bounds(s.drop_last());
        if count_used(s) == 0 {
            assert forall|i: int| 0 <= i < s.len() implies s[i] == 0 by {
                if i < s.len() - 1 {
                    assert(s.drop_last()[i] == s[i]);
                }
            }
        }
        if forall|i: int| 0 <= i < s.len() ==> s[i] == 0 {
            assert forall|i: int| 0 <= i < s.drop_last().len() implies s.drop_last()[i] == 0 by {
                assert(s[i] == 0);
            }
        }
    }
}

/// The frame that the entry with raw value `v` maps, if it is present.
pub open spec fn entry_frame(v: u64) -> Option<u64> {
    match entry_phy_addr(v) {
        Some(a) => Some(a / FRAME_PAGE_SIZE),
        None => None,
    }
}

/// The raw value that an entry gets when it is set to a new table in `frame`.
pub open spec fn table_entry_value(v: u64, frame: u64) -> u64 {
    entry_set_value(v, (frame * FRAME_PAGE_SIZE) as u64, EntryFlags::PRESENT | EntryFlags::WRITABLE)
}

/// An entry that points to a table: present and not a huge page.
pub open spec fn holds_table(v: u64) -> bool {
    &&& v & EntryFlags::PRESENT != 0
    &&& v & EntryFlags::HUGE_PAGE == 0
}

/// The entries of a new table: all unused.
pub open spec fn empty_entries() -> Seq<u64> {
    Seq::new(ENTRY_COUNT as nat, |i: int| 0u64)
}

/// `ENTRY_COUNT` unused entries.
fn empty_entry_vec() -> (r: Vec<Entry>)
    ensures
        r@.len() == ENTRY_COUNT,
        forall|i: int| 0 <= i < ENTRY_COUNT ==> (#[trigger] r@[i])@ == 0,
{
    let mut entries: Vec<Entry> = Vec::new();
    let mut i: usize = 0;
    while i < ENTRY_COUNT
        invariant
            i <= ENTRY_COUNT,
            entries@.len() == i,
            forall|k: int| 0 <= k < i ==> (#[trigger] entries@[k])@ == 0,
        decreases ENTRY_COUNT - i,
    {
        entries.push(Entry::from_raw(0));
        i = i + 1;
    }
    entries
}

/// The raw values of `entries`.
fn raw_entries(entries: &Vec<Entry>) -> (r: Vec<u64>)
    ensures
        r@ == entries@.map_values(|e: Entry| e@),
{
    let mut r: Vec<u64> = Vec::new();
    let mut i: usize = 0;
    while i < entries.len()
        invariant
            i <= entries@.len(),
            r@ == entries@.take(i as int).map_values(|e: Entry| e@),
        decreases entries@.len() - i,
    {
        r.push(entries[i].raw());
        i = i + 1;
        proof {
            assert(entries@.take(i as int).map_values(|e: Entry| e@) =~= entries@.take(i - 1).map_values(|e: Entry| e@).push(entries@[i - 1]@));
        }
    }
    proof {
        assert(entries@.take(i as int) =~= entries@);
    }
    r
}

/// The raw value of an entry that was set to `frame` with `flags`.
proof fn lemma_set_entry(v: u64, frame: u64, flags: u64)
    requires
        frame_fits(frame),
        flags & !EntryFlags::ALL == 0,
        flags & EntryFlags::PRESENT != 0,
    ensures
        entry_frame(entry_set_value(v, (frame * FRAME_PAGE_SIZE) as u64, flags)) == Some(frame),
        entry_set_value(v, (frame * FRAME_PAGE_SIZE) as u64, flags) != 0,
        entry_set_value(v, (frame * FRAME_PAGE_SIZE) as u64, flags) & EntryFlags::ALL == flags,
{
    let a = (frame * FRAME_PAGE_SIZE) as u64;
    assert(a == frame * 4096);
    assert(a % 4096 == 0);
    lemma_entry_set_then_read(v, a, flags);
}

/// The entry of a new table points to it, is present and is not a huge page.
proof fn lemma_table_entry(v: u64, frame: u64)
    requires
        frame_fits(frame),
    ensures
        entry_frame(table_entry_value(v, frame)) == Some(frame),
        table_entry_value(v, frame) != 0,
        holds_table(table_entry_value(v, frame)),
{
    let flags = EntryFlags::PRESENT | EntryFlags::WRITABLE;
    assert((1u64 | 2u64) == 3u64) by {
            crate::memory::pages::page_table::lemma_flag_bits();
        }
    assert(flags == 3u64);
    assert(3u64 & !0x8000_0000_0000_01ffu64 == 0) by {
            crate::memory::pages::page_table::lemma_flag_bits();
        }
    assert(3u64 & 1u64 != 0) by {
            crate::memory::pages::page_table::lemma_flag_bits();
        }
    lemma_set_entry(v, frame, flags);
    let n = table_entry_value(v, frame);
    assert(n & 0x8000_0000_0000_01ffu64 == 3u64 ==> n & 1u64 != 0 && n & 0x80u64 == 0) by {
            crate::memory::pages::page_table::lemma_flag_bits();
        }
}

/// A P1 table: its entries point to the mapped frames.
pub struct PageTable1 {
    entries: Vec<Entry>,
    used_entries_count: u16,
}

impl PageTable1 {
    /// The raw values of the entries.
    pub closed spec fn entries(&self) -> Seq<u64> {
        self.entries@.map_values(|e: Entry| e@)
    }

    /// How many entries the table counts as used.
    pub closed spec fn used(&self) -> nat {
        self.used_entries_count as nat
    }

    pub closed spec fn wf(&self) -> bool {
        &&& self.entries@.len() == ENTRY_COUNT
        &&& self.used_entries_count <= count_used(self.entries())
        &&& forall|i: int| 0 <= i < ENTRY_COUNT ==> (#[trigger] self.entries()[i] != 0 ==> entry_frame(self.entries()[i]) is Some)
    }

    /// The count of used entries is right.
    pub open spec fn counts_exact(&self) -> bool {
        self.used() == count_used(self.entries())
    }

    /// The frame that entry `i1` maps.
    pub open spec fn lookup(&self, i1: int) -> Option<u64> {
        entry_frame(self.entries()[i1])
    }

    /// A table with no entry used.
    fn new() -> (r: Self)
        ensures
            r.wf(),
            r.entries() == empty_entries(),
            r.used() == 0,
    {
        let t = PageTable1 { entries: empty_entry_vec(), used_entries_count: 0 };
        assert(t.entries() =~= empty_entries());
        proof {
            lemma_count_used_bounds(t.entries());
        }
        t
    }

    /// Maps entry `i1` to `frame`, unless that entry is used.
    fn set_entry(&mut self, i1: usize, frame: Frame, flags: EntryFlags) -> (r: Result<(), MemoryError>)
        requires
            old(self).wf(),
            i1 < ENTRY_COUNT,
            frame_fits(frame@),
        ensures
            final(self).wf(),
            old(self).entries()[i1 as int] != 0 ==> r == Err::<(), MemoryError>(MemoryError::MappingUsedTableEntry)
                && *final(self) == *old(self),
            old(self).entries()[i1 as int] == 0 ==> r is Ok && final(self).used() == old(self).used() + 1
                && final(self).entries() == old(self).entries().update(
                    i1 as int,
                    entry_set_value(old(self).entries()[i1 as int], (frame@ * FRAME_PAGE_SIZE) as u64, flags@ | EntryFlags::PRESENT),
                )
                && final(self).lookup(i1 as int) == Some(frame@)
                && final(self).entries()[i1 as int] != 0,
    {
        // the entry must be unused
        if self.entries[i1].is_used() {
            return Err(MemoryError::MappingUsedTableEntry);
        }
        let f = flags.union(EntryFlags::from_bits_truncate(EntryFlags::PRESENT));
        let fb = flags.bits();
        proof {
            assert(1u64 & 0x8000_0000_0000_01ffu64 == 1u64) by {
            crate::memory::pages::page_table::lemma_flag_bits();
        }
            assert((fb | 1u64) & !0x8000_0000_0000_01ffu64 == 0 && (fb | 1u64) & 1u64 != 0) by {
                crate::memory::pages::page_table::lemma_flag_bits();
            }
            lemma_set_entry(self.entries@[i1 as int]@, frame@, f@);
        }
        let ghost old_entries = self.entries();
        proof {
            lemma_count_used_bounds(old_entries);
            lemma_count_used_update(old_entries, i1 as int, entry_set_value(old_entries[i1 as int], (frame@ * FRAME_PAGE_SIZE) as u64, f@));
        }
        // add the new entry to the p1 table
        self.entries[i1].set(frame, f);
        self.used_entries_count = self.used_entries_count + 1;
        assert(self.entries() =~= old_entries.update(
            i1 as int,
            entry_set_value(old_entries[i1 as int], (frame@ * FRAME_PAGE_SIZE) as u64, flags@ | EntryFlags::PRESENT),
        ));
        Ok(())
    }

    /// Marks entry `i1` as unused; gives the frame it mapped, or `UnmappingUnusedTableEntry` when it
    /// mapped none.
    fn clear_entry(&mut self, i1: usize) -> (r: Result<Frame, MemoryError>)
        requires
            old(self).wf(),
            old(self).counts_exact(),
            i1 < ENTRY_COUNT,
        ensures
            final(self).wf(),
            final(self).counts_exact(),
            old(self).lookup(i1 as int) is None ==> r == Err::<Frame, MemoryError>(MemoryError::UnmappingUnusedTableEntry)
                && *final(self) == *old(self),
            old(self).lookup(i1 as int) matches Some(f) ==> r matches Ok(fr) && fr@ == f
                && final(self).entries() == old(self).entries().update(i1 as int, 0)
                && final(self).used() + 1 == old(self).used(),
    {
        let frame = match self.entries[i1].pointed_frame() {
            Some(f) => f,
            None => {
                return Err(MemoryError::UnmappingUnusedTableEntry);
            },
        };
        let ghost old_entries = self.entries();
        proof {
            let v = old_entries[i1 as int];
            assert(v & 1u64 != 0 ==> v != 0) by {
            crate::memory::pages::page_table::lemma_flag_bits();
        }
            lemma_count_used_update(old_entries, i1 as int, 0);
        }
        self.entries[i1].set_unused();
        self.used_entries_count = self.used_entries_count - 1;
        assert(self.entries() =~= old_entries.update(i1 as int, 0));
        Ok(frame)
    }
}

/// A table whose count of used entries is 1 and whose entry `i` is used has no other entry used.
proof fn lemma_only_used(s: Seq<u64>, i: int)
    requires
        0 <= i < s.len(),
        s[i] != 0,
        count_used(s) == 1,
    ensures
        forall|j: int| 0 <= j < s.len() && j != i ==> s[j] == 0,
        count_used(s.update(i, 0)) == 0,
{
    lemma_count_used_update(s, i, 0);
    lemma_count_used_bounds(s.update(i, 0));
    assert forall|j: int| 0 <= j < s.len() && j != i implies s[j] == 0 by {
        assert(s.update(i, 0)[j] == s[j]);
    }
}

/// An unused entry maps nothing.
proof fn lemma_zero_entry()
    ensures
        entry_frame(0) is None,
{
    assert(0u64 & 1u64 == 0) by {
            crate::memory::pages::page_table::lemma_flag_bits();
        }
}

/// The frames `s` are in use and each is there once.
pub open spec fn can_free(in_use: Set<u64>, s: Seq<u64>) -> bool {
    &&& forall|k: int| 0 <= k < s.len() ==> in_use.contains(#[trigger] s[k])
    &&& s.no_duplicates()
}

/// A P2 table: its entries point to P1 tables, which it holds.
pub struct PageTable2 {
    entries: Vec<Entry>,
    next: Vec<Option<PageTable1>>,
    used_entries_count: u16,
}

impl PageTable2 {
    /// The raw values of the entries.
    pub closed spec fn entries(&self) -> Seq<u64> {
        self.entries@.map_values(|e: Entry| e@)
    }

    /// The P1 tables, by entry.
    pub closed spec fn next(&self) -> Seq<Option<PageTable1>> {
        self.next@
    }

    /// How many entries the table counts as used.
    pub closed spec fn used(&self) -> nat {
        self.used_entries_count as nat
    }

    /// Every used entry holds a table, which points to it.
    pub closed spec fn wf(&self) -> bool {
        &&& self.entries@.len() == ENTRY_COUNT
        &&& self.next@.len() == ENTRY_COUNT
        &&& self.used_entries_count <= count_used(self.entries())
        &&& forall|i: int| 0 <= i < ENTRY_COUNT ==> {
            &&& (#[trigger] self.next@[i] is Some) == (self.entries@[i]@ != 0)
            &&& self.next@[i] matches Some(c) ==> c.wf() && holds_table(self.entries@[i]@)
        }
    }

    /// The counts of used entries are right, here and below.
    pub open spec fn counts_exact(&self) -> bool {
        &&& self.used() == count_used(self.entries())
        &&& forall|i: int| 0 <= i < ENTRY_COUNT ==> (#[trigger] self.next()[i] matches Some(c) ==> c.counts_exact())
    }

    /// The frame that the page at entries `i2`, `i1` maps.
    pub open spec fn lookup(&self, i2: int, i1: int) -> Option<u64> {
        match self.next()[i2] {
            Some(c) => c.lookup(i1),
            None => None,
        }
    }

    /// The raw value of the P1 entry of the page at entries `i2`, `i1`, if its P1 table exists.
    pub open spec fn raw(&self, i2: int, i1: int) -> Option<u64> {
        match self.next()[i2] {
            Some(c) => Some(c.entries()[i1]),
            None => None,
        }
    }

    /// The frames that unmapping the page at entries `i2`, `i1` gives back: the mapped frame, if asked
    /// for, then the frame of the P1 table if that is left empty.
    pub open spec fn unmap_freed(&self, i2: int, i1: int, deallocate_frame: bool) -> Seq<u64> {
        let p1 = self.next()[i2]->0;
        (if deallocate_frame { seq![p1.lookup(i1)->0] } else { Seq::empty() }) + (if count_used(p1.entries()) == 1 {
            seq![entry_frame(self.entries()[i2])->0]
        } else {
            Seq::empty()
        })
    }

    /// A table with no entry used.
    fn new() -> (r: Self)
        ensures
            r.wf(),
            r.entries() == empty_entries(),
            forall|i: int| 0 <= i < ENTRY_COUNT ==> #[trigger] r.next()[i] is None,
            r.used() == 0,
    {
        let mut next: Vec<Option<PageTable1>> = Vec::new();
        let mut i: usize = 0;
        while i < ENTRY_COUNT
            invariant
                i <= ENTRY_COUNT,
                next@.len() == i,
                forall|k: int| 0 <= k < i ==> (#[trigger] next@[k]) is None,
            decreases ENTRY_COUNT - i,
        {
            next.push(None);
            i = i + 1;
        }
        let t = PageTable2 { entries: empty_entry_vec(), next, used_entries_count: 0 };
        assert(t.entries() =~= empty_entries());
        proof {
            lemma_count_used_bounds(t.entries());
        }
        t
    }

    /// Makes sure that entry `i2` holds a P1 table, creating an empty one in a new frame if it does
    /// not. Tells whether it created one.
    fn create_next_table<A: FrameAllocator>(&mut self, i2: usize, fa: &mut A) -> (r: Result<bool, MemoryError>)
        requires
            old(self).wf(),
            i2 < ENTRY_COUNT,
            old(fa).ready(),
        ensures
            old(self).next()[i2 as int] is Some ==> *final(fa) == *old(fa),
            old(fa).can_hand_out(1) ==> r is Ok,
            forall|k: nat| old(fa).can_hand_out(k + 1) ==> #[trigger] final(fa).can_hand_out(k),
            final(self).wf(),
            final(fa).ready(),
            final(self).used() == old(self).used(),
            old(self).next()[i2 as int] is Some ==> r == Ok::<bool, MemoryError>(false) && *final(self) == *old(self)
                && final(fa).in_use() == old(fa).in_use(),
            old(self).next()[i2 as int] is None ==> match r {
                Ok(created) => {
                    &&& created
                    &&& final(self).next()[i2 as int] matches Some(c) && c.entries() == empty_entries() && c.used() == 0
                    &&& exists|f: u64| {
                        &&& #[trigger] final(self).entries() == old(self).entries().update(i2 as int, table_entry_value(0, f))
                        &&& frame_fits(f)
                        &&& !old(fa).in_use().contains(f)
                        &&& final(fa).in_use() == old(fa).in_use().insert(f)
                    }
                    &&& forall|i: int| 0 <= i < ENTRY_COUNT && i != i2 ==> #[trigger] final(self).next()[i] == old(self).next()[i]
                },
                Err(e) => e == MemoryError::NotEnoughPhyMemory && *final(self) == *old(self) && final(fa).in_use() == old(fa).in_use(),
            },
    {
        // check if page table is already allocated
        if self.next[i2].is_some() {
            proof {
                assert forall|k: nat| old(fa).can_hand_out(k + 1) implies #[trigger] fa.can_hand_out(k) by {
                    fa.lemma_can_hand_out_fewer(k);
                }
            }
            return Ok(false);
        }
        // page table is not yet created so allocate a new frame to hold the new page table
        let frame = fa.allocate_frame()?;
        let ghost old_entries = self.entries();
        proof {
            lemma_table_entry(0, frame@);
            assert(old_entries[i2 as int] == 0);
            assert((0x1u64 | 0x2u64) & 0x8000_0000_0000_01ffu64 == 0x3u64) by {
            crate::memory::pages::page_table::lemma_flag_bits();
        }
            assert((0x1u64 | 0x2u64) == 0x3u64) by {
            crate::memory::pages::page_table::lemma_flag_bits();
        }
        }
        // set the new entry
        let flags = EntryFlags::from_bits_truncate(EntryFlags::PRESENT | EntryFlags::WRITABLE);
        assert(flags@ == EntryFlags::PRESENT | EntryFlags::WRITABLE);
        self.entries[i2].set(frame, flags);
        self.next[i2] = Some(PageTable1::new());
        proof {
            assert(self.entries() =~= old_entries.update(i2 as int, table_entry_value(0, frame@)));
            lemma_count_used_update(old_entries, i2 as int, table_entry_value(0, frame@));
        }
        Ok(true)
    }

    /// Maps the page at entries `i2`, `i1` to `frame`, creating the P1 table if needed.
    fn map_in<A: FrameAllocator>(&mut self, i2: usize, i1: usize, frame: Frame, flags: EntryFlags, fa: &mut A) -> (r: Result<(), MemoryError>)
        requires
            old(self).wf(),
            i2 < ENTRY_COUNT,
            i1 < ENTRY_COUNT,
            frame_fits(frame@),
            old(fa).ready(),
        ensures
            final(self).wf(),
            final(fa).ready(),
            old(fa).in_use().subset_of(final(fa).in_use()),
            old(self).lookup(i2 as int, i1 as int) is Some ==> r == Err::<(), MemoryError>(MemoryError::MappingUsedTableEntry)
                && final(self).entries() == old(self).entries() && final(self).next() == old(self).next()
                && final(self).used() == old(self).used(),
            r is Ok ==> final(self).lookup(i2 as int, i1 as int) == Some(frame@)
                && (old(self).counts_exact() ==> final(self).counts_exact()),
            r is Err ==> old(self).lookup(i2 as int, i1 as int) is Some || r == Err::<(), MemoryError>(MemoryError::NotEnoughPhyMemory),
            forall|a: int, b: int| 0 <= a < ENTRY_COUNT && 0 <= b < ENTRY_COUNT && (a != i2 || b != i1)
                ==> #[trigger] final(self).lookup(a, b) == old(self).lookup(a, b),
            old(self).lookup(i2 as int, i1 as int) is None && old(self).raw(i2 as int, i1 as int) is Some ==> r is Ok,
            old(self).lookup(i2 as int, i1 as int) is None && old(fa).can_hand_out(1) ==> r is Ok,
            forall|k: nat| old(fa).can_hand_out(k + 1) ==> #[trigger] final(fa).can_hand_out(k),
            r is Ok ==> final(self).raw(i2 as int, i1 as int) == Some(
                entry_set_value(0, (frame@ * FRAME_PAGE_SIZE) as u64, flags@ | EntryFlags::PRESENT),
            ),
            forall|a: int, b: int| 0 <= a < ENTRY_COUNT && 0 <= b < ENTRY_COUNT && (a != i2 || b != i1)
                && #[trigger] old(self).raw(a, b) is Some ==> final(self).raw(a, b) == old(self).raw(a, b),
    {
        let ghost s0 = *self;
        let created = self.create_next_table(i2, fa)?;
        let ghost s1 = *self;
        let ghost p1_old = s1.next()[i2 as int]->0;
        proof {
            assert(s1.next()[i2 as int] is Some);
            if created {
                let f = choose|f: u64| #[trigger] s1.entries() == s0.entries().update(i2 as int, table_entry_value(0, f))
                    && frame_fits(f) && !old(fa).in_use().contains(f) && fa.in_use() == old(fa).in_use().insert(f);
                lemma_table_entry(0, f);
                lemma_count_used_update(s0.entries(), i2 as int, table_entry_value(0, f));
                lemma_count_used_bounds(Seq::new(ENTRY_COUNT as nat, |i: int| 0u64));
                assert(p1_old.entries() == empty_entries());
            }
        }
        let r = match &mut self.next[i2] {
            Some(p1) => p1.set_entry(i1, frame, flags),
            None => Err(MemoryError::MappingUsedTableEntry),
        };
        let ghost p1_new = self.next()[i2 as int]->0;
        proof {
            let v = p1_old.entries()[i1 as int];
            assert(v & 1u64 != 0 ==> v != 0) by {
            crate::memory::pages::page_table::lemma_flag_bits();
        }
        }
        assert(self.next() =~= s1.next().update(i2 as int, Some(p1_new)));
        if r.is_ok() && created {
            proof {
                lemma_count_used_bounds(self.entries());
            }
            self.used_entries_count = self.used_entries_count + 1;
        }
        proof {
            if r is Err {
                assert(self.next() =~= s1.next());
            }
            assert forall|a: int, b: int| 0 <= a < ENTRY_COUNT && 0 <= b < ENTRY_COUNT && (a != i2 || b != i1)
                implies #[trigger] self.lookup(a, b) == s0.lookup(a, b) by {
                if a != i2 {
                    assert(self.next()[a] == s0.next()[a]);
                } else {
                    assert(p1_new.entries()[b] == p1_old.entries()[b]);
                    if created {
                        assert(p1_old.entries()[b] == 0);
                        assert(entry_phy_addr(0) is None) by {
                            assert(0u64 & 1u64 == 0) by {
            crate::memory::pages::page_table::lemma_flag_bits();
        }
                        }
                    }
                }
            }
            if r is Ok && s0.counts_exact() {
                assert forall|i: int| 0 <= i < ENTRY_COUNT implies (#[trigger] self.next()[i] matches Some(c) ==> c.counts_exact()) by {
                    if i != i2 {
                        assert(self.next()[i] == s0.next()[i]);
                    } else if !created {
                        assert(p1_old == s0.next()[i2 as int]->0);
                        lemma_count_used_update(p1_old.entries(), i1 as int, p1_new.entries()[i1 as int]);
                    } else {
                        lemma_count_used_bounds(p1_old.entries());
                        lemma_count_used_update(p1_old.entries(), i1 as int, p1_new.entries()[i1 as int]);
                    }
                }
            }
        }
        r
    }

    /// Unmaps the page at entries `i2`, `i1`, giving its frame back to `fa` if `deallocate_frame`; a P1
    /// table left empty is dropped and its frame given back.
    fn unmap_in<A: FrameAllocator>(&mut self, i2: usize, i1: usize, deallocate_frame: bool, fa: &mut A) -> (r: Result<(), MemoryError>)
        requires
            old(self).wf(),
            old(self).counts_exact(),
            i2 < ENTRY_COUNT,
            i1 < ENTRY_COUNT,
            old(fa).ready(),
            old(self).lookup(i2 as int, i1 as int) is Some ==> can_free(old(fa).in_use(), old(self).unmap_freed(i2 as int, i1 as int, deallocate_frame)),
        ensures
            final(self).wf(),
            final(self).counts_exact(),
            final(fa).ready(),
            old(self).lookup(i2 as int, i1 as int) is None ==> r == Err::<(), MemoryError>(MemoryError::UnmappingUnusedTableEntry)
                && final(self).entries() == old(self).entries() && final(self).next() == old(self).next()
                && final(self).used() == old(self).used() && final(fa).in_use() == old(fa).in_use(),
            old(self).lookup(i2 as int, i1 as int) is Some ==> r is Ok && final(self).lookup(i2 as int, i1 as int) is None
                && final(fa).in_use() == old(fa).in_use().difference(old(self).unmap_freed(i2 as int, i1 as int, deallocate_frame).to_set())
                && final(self).used() == old(self).used() - (if count_used(old(self).next()[i2 as int]->0.entries()) == 1 { 1int } else { 0int }),
            forall|a: int, b: int| 0 <= a < ENTRY_COUNT && 0 <= b < ENTRY_COUNT && (a != i2 || b != i1)
                ==> #[trigger] final(self).lookup(a, b) == old(self).lookup(a, b),
    {
        let ghost s0 = *self;
        let ghost freed = s0.unmap_freed(i2 as int, i1 as int, deallocate_frame);
        let ghost in0 = fa.in_use();
        if self.next[i2].is_none() {
            return Err(MemoryError::UnmappingUnusedTableEntry);
        }
        let ghost p1_old = s0.next()[i2 as int]->0;
        let cleared = match &mut self.next[i2] {
            Some(p1) => p1.clear_entry(i1),
            None => Err(MemoryError::UnmappingUnusedTableEntry),
        };
        let ghost p1_new = self.next()[i2 as int]->0;
        assert(self.next() =~= s0.next().update(i2 as int, Some(p1_new)));
        let frame = match cleared {
            Ok(f) => f,
            Err(e) => {
                assert(self.next() =~= s0.next());
                return Err(e);
            },
        };
        proof {
            lemma_count_used_bounds(p1_old.entries());
            lemma_count_used_update(p1_old.entries(), i1 as int, 0);
            let v = p1_old.entries()[i1 as int];
            assert(v & 1u64 != 0 ==> v != 0) by {
            crate::memory::pages::page_table::lemma_flag_bits();
        }
            lemma_zero_entry();
        }
        if deallocate_frame {
            proof {
                assert(freed[0] == frame@);
            }
            fa.deallocate_frame(frame);
        }
        let ghost in1 = fa.in_use();
        let empty = match &self.next[i2] {
            Some(p1) => p1.used_entries_count == 0,
            None => false,
        };
        if empty {
            proof {
                lemma_only_used(p1_old.entries(), i1 as int);
                lemma_count_used_update(s0.entries(), i2 as int, 0);
            }
            let ghost old_entries = self.entries();
            let table_frame = self.entries[i2].pointed_frame().unwrap();
            self.entries[i2].set_unused();
            self.next[i2] = None;
            self.used_entries_count = self.used_entries_count - 1;
            proof {
                let k: int = if deallocate_frame { 1 } else { 0 };
                assert(freed[k] == table_frame@);
                if deallocate_frame {
                    assert(freed[0] != freed[1]);
                    assert(in1.contains(table_frame@));
                }
            }
            fa.deallocate_frame(table_frame);
            assert(self.entries() =~= old_entries.update(i2 as int, 0));
        }
        proof {
            assert forall|a: int, b: int| 0 <= a < ENTRY_COUNT && 0 <= b < ENTRY_COUNT && (a != i2 || b != i1)
                implies #[trigger] self.lookup(a, b) == s0.lookup(a, b) by {
                if a != i2 {
                    assert(self.next()[a] == s0.next()[a]);
                } else if empty {
                    assert(p1_old.entries()[b] == 0);
                } else {
                    assert(p1_new.entries()[b] == p1_old.entries()[b]);
                }
            }
            assert forall|i: int| 0 <= i < ENTRY_COUNT implies (#[trigger] self.next()[i] matches Some(c) ==> c.counts_exact()) by {
                if i != i2 {
                    assert(self.next()[i] == s0.next()[i]);
                }
            }
            assert(fa.in_use() =~= in0.difference(freed.to_set())) by {
                if deallocate_frame {
                    assert(freed.to_set().contains(freed[0]));
                }
                if empty {
                    let k: int = if deallocate_frame { 1 } else { 0 };
                    assert(freed.to_set().contains(freed[k]));
                }
                assert forall|g: u64| freed.to_set().contains(g) implies (deallocate_frame && g == frame@) || (empty && g == freed[freed.len() - 1]) by {
                    let k = choose|k: int| 0 <= k < freed.len() && freed[k] == g;
                }
            }
        }
        Ok(())
    }
}

/// A P3 table: its entries point to P2 tables, which it holds.
pub struct PageTable3 {
    entries: Vec<Entry>,
    next: Vec<Option<PageTable2>>,
    used_entries_count: u16,
}

impl PageTable3 {
    /// The raw values of the entries.
    pub closed spec fn entries(&self) -> Seq<u64> {
        self.entries@.map_values(|e: Entry| e@)
    }

    /// The P2 tables, by entry.
    pub closed spec fn next(&self) -> Seq<Option<PageTable2>> {
        self.next@
    }

    /// How many entries the table counts as used.
    pub closed spec fn used(&self) -> nat {
        self.used_entries_count as nat
    }

    /// Every used entry holds a table, which points to it.
    pub closed spec fn wf(&self) -> bool {
        &&& self.entries@.len() == ENTRY_COUNT
        &&& self.next@.len() == ENTRY_COUNT
        &&& self.used_entries_count <= count_used(self.entries())
        &&& forall|i: int| 0 <= i < ENTRY_COUNT ==> {
            &&& (#[trigger] self.next@[i] is Some) == (self.entries@[i]@ != 0)
            &&& self.next@[i] matches Some(c) ==> c.wf() && holds_table(self.entries@[i]@)
        }
    }

    /// The counts of used entries are right, here and below.
    pub open spec fn counts_exact(&self) -> bool {
        &&& self.used() == count_used(self.entries())
        &&& forall|i: int| 0 <= i < ENTRY_COUNT ==> (#[trigger] self.next()[i] matches Some(c) ==> c.counts_exact())
    }

    /// The frame that the page at entries `i3`, `i2`, `i1` maps.
    pub open spec fn lookup(&self, i3: int, i2: int, i1: int) -> Option<u64> {
        match self.next()[i3] {
            Some(c) => c.lookup(i2, i1),
            None => None,
        }
    }

    /// The raw value of the P1 entry of the page at entries `i3`, `i2`, `i1`, if its tables exist.
    pub open spec fn raw(&self, i3: int, i2: int, i1: int) -> Option<u64> {
        match self.next()[i3] {
            Some(c) => c.raw(i2, i1),
            None => None,
        }
    }

    /// The frames that unmapping the page at entries `i3`, `i2`, `i1` gives back: those of the P2 table's
    /// part, then the frame of the P2 table if that is left empty.
    pub open spec fn unmap_freed(&self, i3: int, i2: int, i1: int, deallocate_frame: bool) -> Seq<u64> {
        let p2 = self.next()[i3]->0;
        p2.unmap_freed(i2, i1, deallocate_frame) + (if count_used(p2.next()[i2]->0.entries()) == 1 && count_used(p2.entries()) == 1 {
            seq![entry_frame(self.entries()[i3])->0]
        } else {
            Seq::empty()
        })
    }

    /// A table with no entry used.
    fn new() -> (r: Self)
        ensures
            r.wf(),
            r.entries() == empty_entries(),
            forall|i: int| 0 <= i < ENTRY_COUNT ==> #[trigger] r.next()[i] is None,
            r.used() == 0,
    {
        let mut next: Vec<Option<PageTable2>> = Vec::new();
        let mut i: usize = 0;
        while i < ENTRY_COUNT
            invariant
                i <= ENTRY_COUNT,
                next@.len() == i,
                forall|k: int| 0 <= k < i ==> (#[trigger] next@[k]) is None,
            decreases ENTRY_COUNT - i,
        {
            next.push(None);
            i = i + 1;
        }
        let t = PageTable3 { entries: empty_entry_vec(), next, used_entries_count: 0 };
        assert(t.entries() =~= empty_entries());
        proof {
            lemma_count_used_bounds(t.entries());
        }
        t
    }

    /// Makes sure that entry `i2` holds a P2 table, creating an empty one in a new frame if it does
    /// not. Tells whether it created one.
    fn create_next_table<A: FrameAllocator>(&mut self, i2: usize, fa: &mut A) -> (r: Result<bool, MemoryError>)
        requires
            old(self).wf(),
            i2 < ENTRY_COUNT,
            old(fa).ready(),
        ensures
            old(self).next()[i2 as int] is Some ==> *final(fa) == *old(fa),
            old(fa).can_hand_out(1) ==> r is Ok,
            forall|k: nat| old(fa).can_hand_out(k + 1) ==> #[trigger] final(fa).can_hand_out(k),
            final(self).wf(),
            final(fa).ready(),
            final(self).used() == old(self).used(),
            old(self).next()[i2 as int] is Some ==> r == Ok::<bool, MemoryError>(false) && *final(self) == *old(self)
                && final(fa).in_use() == old(fa).in_use(),
            old(self).next()[i2 as int] is None ==> match r {
                Ok(created) => {
                    &&& created
                    &&& final(self).next()[i2 as int] matches Some(c) && c.entries() == empty_entries() && c.used() == 0
                        && (forall|i: int| 0 <= i < ENTRY_COUNT ==> #[trigger] c.next()[i] is None)
                    &&& exists|f: u64| {
                        &&& #[trigger] final(self).entries() == old(self).entries().update(i2 as int, table_entry_value(0, f))
                        &&& frame_fits(f)
                        &&& !old(fa).in_use().contains(f)
                        &&& final(fa).in_use() == old(fa).in_use().insert(f)
                    }
                    &&& forall|i: int| 0 <= i < ENTRY_COUNT && i != i2 ==> #[trigger] final(self).next()[i] == old(self).next()[i]
                },
                Err(e) => e == MemoryError::NotEnoughPhyMemory && *final(self) == *old(self) && final(fa).in_use() == old(fa).in_use(),
            },
    {
        // check if page table is already allocated
        if self.next[i2].is_some() {
            proof {
                assert forall|k: nat| old(fa).can_hand_out(k + 1) implies #[trigger] fa.can_hand_out(k) by {
                    fa.lemma_can_hand_out_fewer(k);
                }
            }
            return Ok(false);
        }
        // page table is not yet created so allocate a new frame to hold the new page table
        let frame = fa.allocate_frame()?;
        let ghost old_entries = self.entries();
        proof {
            lemma_table_entry(0, frame@);
            assert(old_entries[i2 as int] == 0);
            assert((0x1u64 | 0x2u64) & 0x8000_0000_0000_01ffu64 == 0x3u64) by {
            crate::memory::pages::page_table::lemma_flag_bits();
        }
            assert((0x1u64 | 0x2u64) == 0x3u64) by {
            crate::memory::pages::page_table::lemma_flag_bits();
        }
        }
        // set the new entry
        let flags = EntryFlags::from_bits_truncate(EntryFlags::PRESENT | EntryFlags::WRITABLE);
        assert(flags@ == EntryFlags::PRESENT | EntryFlags::WRITABLE);
        self.entries[i2].set(frame, flags);
        self.next[i2] = Some(PageTable2::new());
        proof {
            assert(self.entries() =~= old_entries.update(i2 as int, table_entry_value(0, frame@)));
            lemma_count_used_update(old_entries, i2 as int, table_entry_value(0, frame@));
        }
        Ok(true)
    }

    /// Maps the page at entries `i3`, `i2`, `i1` to `frame`, creating the P2 and P1 tables if needed.
    fn map_in<A: FrameAllocator>(&mut self, i3: usize, i2: usize, i1: usize, frame: Frame, flags: EntryFlags, fa: &mut A) -> (r: Result<(), MemoryError>)
        requires
            old(self).wf(),
            i3 < ENTRY_COUNT,
            i2 < ENTRY_COUNT,
            i1 < ENTRY_COUNT,
            frame_fits(frame@),
            old(fa).ready(),
        ensures
            final(self).wf(),
            final(fa).ready(),
            old(fa).in_use().subset_of(final(fa).in_use()),
            old(self).lookup(i3 as int, i2 as int, i1 as int) is Some ==> r == Err::<(), MemoryError>(MemoryError::MappingUsedTableEntry)
                && final(self).entries() == old(self).entries() && final(self).used() == old(self).used()
                && final(self).lookup(i3 as int, i2 as int, i1 as int) == old(self).lookup(i3 as int, i2 as int, i1 as int)
                && final(self).raw(i3 as int, i2 as int, i1 as int) == old(self).raw(i3 as int, i2 as int, i1 as int)
                && (old(self).counts_exact() ==> final(self).counts_exact()),
            r is Ok ==> final(self).lookup(i3 as int, i2 as int, i1 as int) == Some(frame@)
                && (old(self).counts_exact() ==> final(self).counts_exact()),
            r is Err ==> old(self).lookup(i3 as int, i2 as int, i1 as int) is Some || r == Err::<(), MemoryError>(MemoryError::NotEnoughPhyMemory),
            forall|a: int, b: int, c: int| 0 <= a < ENTRY_COUNT && 0 <= b < ENTRY_COUNT && 0 <= c < ENTRY_COUNT
                && (a != i3 || b != i2 || c != i1) ==> #[trigger] final(self).lookup(a, b, c) == old(self).lookup(a, b, c),
            old(self).lookup(i3 as int, i2 as int, i1 as int) is None && old(self).raw(i3 as int, i2 as int, i1 as int) is Some
                ==> r is Ok,
            old(self).lookup(i3 as int, i2 as int, i1 as int) is None && old(fa).can_hand_out(2) ==> r is Ok,
            r is Ok ==> forall|k: nat| old(fa).can_hand_out(k + 2) ==> #[trigger] final(fa).can_hand_out(k),
            r is Ok ==> final(self).raw(i3 as int, i2 as int, i1 as int) == Some(
                entry_set_value(0, (frame@ * FRAME_PAGE_SIZE) as u64, flags@ | EntryFlags::PRESENT),
            ),
            forall|a: int, b: int, c: int| 0 <= a < ENTRY_COUNT && 0 <= b < ENTRY_COUNT && 0 <= c < ENTRY_COUNT
                && (a != i3 || b != i2 || c != i1) && #[trigger] old(self).raw(a, b, c) is Some ==> final(self).raw(a, b, c)
                == old(self).raw(a, b, c),
    {
        let ghost s0 = *self;
        proof {
            if fa.can_hand_out(2) {
                fa.lemma_can_hand_out_fewer(1);
            }
        }
        let created = self.create_next_table(i3, fa)?;
        proof {
            if old(fa).can_hand_out(2) {
                assert(fa.can_hand_out(1));
            }
        }
        let ghost s1 = *self;
        let ghost p2_old = s1.next()[i3 as int]->0;
        proof {
            assert(s1.next()[i3 as int] is Some);
            if created {
                let f = choose|f: u64| #[trigger] s1.entries() == s0.entries().update(i3 as int, table_entry_value(0, f))
                    && frame_fits(f) && !old(fa).in_use().contains(f) && fa.in_use() == old(fa).in_use().insert(f);
                lemma_table_entry(0, f);
                lemma_count_used_update(s0.entries(), i3 as int, table_entry_value(0, f));
                lemma_count_used_bounds(Seq::new(ENTRY_COUNT as nat, |i: int| 0u64));
                assert(p2_old.entries() == empty_entries());
            }
        }
        let ghost fa1 = fa.in_use();
        let r = match &mut self.next[i3] {
            Some(p2) => p2.map_in(i2, i1, frame, flags, fa),
            None => Err(MemoryError::MappingUsedTableEntry),
        };
        let ghost p2_new = self.next()[i3 as int]->0;
        assert(self.next() =~= s1.next().update(i3 as int, Some(p2_new)));
        if r.is_ok() && created {
            proof {
                lemma_count_used_bounds(self.entries());
            }
            self.used_entries_count = self.used_entries_count + 1;
        }
        proof {
            if r is Err && s0.lookup(i3 as int, i2 as int, i1 as int) is Some && s0.counts_exact() {
                assert forall|i: int| 0 <= i < ENTRY_COUNT implies (#[trigger] self.next()[i] matches Some(c) ==> c.counts_exact()) by {
                    if i != i3 {
                        assert(self.next()[i] == s0.next()[i]);
                    } else {
                        assert(p2_old == s0.next()[i3 as int]->0);
                        assert forall|j: int| 0 <= j < ENTRY_COUNT implies (#[trigger] p2_new.next()[j] matches Some(c) ==> c.counts_exact()) by {
                            assert(p2_new.next()[j] == p2_old.next()[j]);
                        }
                    }
                }
            }
            assert forall|a: int, b: int, c: int| 0 <= a < ENTRY_COUNT && 0 <= b < ENTRY_COUNT && 0 <= c < ENTRY_COUNT
                && (a != i3 || b != i2 || c != i1) implies #[trigger] self.lookup(a, b, c) == s0.lookup(a, b, c) by {
                if a != i3 {
                    assert(self.next()[a] == s0.next()[a]);
                } else {
                    assert(p2_new.lookup(b, c) == p2_old.lookup(b, c));
                    if created {
                        assert(p2_old.next()[b] is None);
                    }
                }
            }
            if r is Ok && s0.counts_exact() {
                assert forall|i: int| 0 <= i < ENTRY_COUNT implies (#[trigger] self.next()[i] matches Some(c) ==> c.counts_exact()) by {
                    if i != i3 {
                        assert(self.next()[i] == s0.next()[i]);
                    } else if created {
                        lemma_count_used_bounds(p2_old.entries());
                        assert forall|j: int| 0 <= j < ENTRY_COUNT implies (#[trigger] p2_old.next()[j] matches Some(c) ==> c.counts_exact()) by {
                            assert(p2_old.next()[j] is None);
                        }
                    }
                }
            }
        }
        r
    }

    /// Unmaps the page at entries `i3`, `i2`, `i1`, giving its frame back to `fa` if `deallocate_frame`;
    /// tables left empty are dropped and their frames given back.
    fn unmap_in<A: FrameAllocator>(&mut self, i3: usize, i2: usize, i1: usize, deallocate_frame: bool, fa: &mut A) -> (r: Result<(), MemoryError>)
        requires
            old(self).wf(),
            old(self).counts_exact(),
            i3 < ENTRY_COUNT,
            i2 < ENTRY_COUNT,
            i1 < ENTRY_COUNT,
            old(fa).ready(),
            old(self).lookup(i3 as int, i2 as int, i1 as int) is Some ==> can_free(
                old(fa).in_use(),
                old(self).unmap_freed(i3 as int, i2 as int, i1 as int, deallocate_frame),
            ),
        ensures
            final(self).wf(),
            final(self).counts_exact(),
            final(fa).ready(),
            old(self).lookup(i3 as int, i2 as int, i1 as int) is None ==> r == Err::<(), MemoryError>(MemoryError::UnmappingUnusedTableEntry)
                && final(self).entries() == old(self).entries() && final(self).used() == old(self).used()
                && final(fa).in_use() == old(fa).in_use(),
            old(self).lookup(i3 as int, i2 as int, i1 as int) is Some ==> r is Ok && final(self).lookup(i3 as int, i2 as int, i1 as int) is None
                && final(fa).in_use() == old(fa).in_use().difference(
                    old(self).unmap_freed(i3 as int, i2 as int, i1 as int, deallocate_frame).to_set(),
                )
                && final(self).used() == old(self).used() - (if count_used(old(self).next()[i3 as int]->0.next()[i2 as int]->0.entries()) == 1
                    && count_used(old(self).next()[i3 as int]->0.entries()) == 1 { 1int } else { 0int }),
            forall|a: int, b: int, c: int| 0 <= a < ENTRY_COUNT && 0 <= b < ENTRY_COUNT && 0 <= c < ENTRY_COUNT
                && (a != i3 || b != i2 || c != i1) ==> #[trigger] final(self).lookup(a, b, c) == old(self).lookup(a, b, c),
    {
        let ghost s0 = *self;
        let ghost freed = s0.unmap_freed(i3 as int, i2 as int, i1 as int, deallocate_frame);
        let ghost in0 = fa.in_use();
        if self.next[i3].is_none() {
            return Err(MemoryError::UnmappingUnusedTableEntry);
        }
        let ghost p2_old = s0.next()[i3 as int]->0;
        let ghost freed2 = p2_old.unmap_freed(i2 as int, i1 as int, deallocate_frame);
        proof {
            if s0.lookup(i3 as int, i2 as int, i1 as int) is Some {
                assert forall|k: int| 0 <= k < freed2.len() implies in0.contains(#[trigger] freed2[k]) by {
                    assert(freed[k] == freed2[k]);
                }
                assert(freed2.no_duplicates()) by {
                    assert forall|x: int, y: int| 0 <= x < freed2.len() && 0 <= y < freed2.len() && x != y implies freed2[x] != freed2[y] by {
                        assert(freed[x] == freed2[x] && freed[y] == freed2[y]);
                    }
                }
            }
        }
        let res = match &mut self.next[i3] {
            Some(p2) => p2.unmap_in(i2, i1, deallocate_frame, fa),
            None => Err(MemoryError::UnmappingUnusedTableEntry),
        };
        let ghost p2_new = self.next()[i3 as int]->0;
        assert(self.next() =~= s0.next().update(i3 as int, Some(p2_new)));
        if res.is_err() {
            return res;
        }
        let ghost in1 = fa.in_use();
        let empty = match &self.next[i3] {
            Some(p2) => p2.used_entries_count == 0,
            None => false,
        };
        proof {
            lemma_count_used_bounds(p2_old.entries());
            lemma_zero_entry();
        }
        if empty {
            proof {
                let p1_old = p2_old.next()[i2 as int]->0;
                assert(count_used(p1_old.entries()) == 1);
                assert(p2_old.entries()[i2 as int] != 0);
                lemma_only_used(p2_old.entries(), i2 as int);
                lemma_count_used_update(s0.entries(), i3 as int, 0);
            }
            let ghost old_entries = self.entries();
            let table_frame = self.entries[i3].pointed_frame().unwrap();
            self.entries[i3].set_unused();
            self.next[i3] = None;
            self.used_entries_count = self.used_entries_count - 1;
            proof {
                let k: int = freed2.len() as int;
                assert(freed[k] == table_frame@);
                assert forall|x: int| 0 <= x < freed2.len() implies freed2[x] != table_frame@ by {
                    assert(freed[x] == freed2[x]);
                }
                assert(in1.contains(table_frame@)) by {
                    assert(!freed2.to_set().contains(table_frame@));
                }
            }
            fa.deallocate_frame(table_frame);
            assert(self.entries() =~= old_entries.update(i3 as int, 0));
        }
        proof {
            assert forall|a: int, b: int, c: int| 0 <= a < ENTRY_COUNT && 0 <= b < ENTRY_COUNT && 0 <= c < ENTRY_COUNT
                && (a != i3 || b != i2 || c != i1) implies #[trigger] self.lookup(a, b, c) == s0.lookup(a, b, c) by {
                if a != i3 {
                    assert(self.next()[a] == s0.next()[a]);
                } else if empty {
                    assert(p2_old.entries()[b] == 0 || b == i2);
                    if b != i2 {
                        assert(p2_old.next()[b] is None);
                    } else {
                        let p1_old = p2_old.next()[i2 as int]->0;
                        lemma_only_used(p1_old.entries(), i1 as int);
                        assert(p1_old.entries()[c] == 0);
                    }
                } else {
                    assert(p2_new.lookup(b, c) == p2_old.lookup(b, c));
                }
            }
            assert forall|i: int| 0 <= i < ENTRY_COUNT implies (#[trigger] self.next()[i] matches Some(c) ==> c.counts_exact()) by {
                if i != i3 {
                    assert(self.next()[i] == s0.next()[i]);
                }
            }
            assert(fa.in_use() =~= in0.difference(freed.to_set())) by {
                assert forall|g: u64| freed.to_set().contains(g) <==> freed2.to_set().contains(g) || (empty && g == freed[freed.len() - 1]) by {
                    if freed.to_set().contains(g) {
                        let k = choose|k: int| 0 <= k < freed.len() && freed[k] == g;
                        if k < freed2.len() {
                            assert(freed2[k] == g);
                        }
                    }
                    if freed2.to_set().contains(g) {
                        let k = choose|k: int| 0 <= k < freed2.len() && freed2[k] == g;
                        assert(freed[k] == g);
                    }
                    if empty && g == freed[freed.len() - 1] {
                        assert(freed.to_set().contains(freed[freed.len() - 1]));
                    }
                }
            }
        }
        Ok(())
    }
}


/// The part of a page number that the page table indexes take (the 36 bits of a 48 bit address).
pub open spec fn page_key(q: u64) -> u64 {
    q % 0x10_0000_0000
}

/// The four table indexes of page number `q`, P4 first.
pub open spec fn page_indexes(q: u64) -> (int, int, int, int) {
    ((q / 0x800_0000) as int % 512, (q / 0x4_0000) as int % 512, (q / 0x200) as int % 512, q as int % 512)
}

/// Pages with the same table indexes have the same key.
proof fn lemma_page_indexes_key(q1: u64, q2: u64)
    requires
        page_indexes(q1) == page_indexes(q2),
    ensures
        page_key(q1) == page_key(q2),
{
    assert((q1 / 0x800_0000) % 512 == (q2 / 0x800_0000) % 512 && (q1 / 0x4_0000) % 512 == (q2 / 0x4_0000) % 512
        && (q1 / 0x200) % 512 == (q2 / 0x200) % 512 && q1 % 512 == q2 % 512 ==> q1 % 0x10_0000_0000 == q2 % 0x10_0000_0000)
        by (bit_vector);
}

/// The pages numbered `lo` to `hi` can all be mapped: none is mapped in `ctx`, each address is
/// canonical, and they are close enough to use different table entries.
pub open spec fn pages_free(ctx: ActivePagingContext, lo: int, hi: int) -> bool {
    &&& hi - lo < 0x10_0000_0000
    &&& forall|q: u64| lo <= q <= hi ==> #[trigger] ctx.translation(q) is None && is_canonical((q * FRAME_PAGE_SIZE) as u64)
}

/// Pages closer than 2^36 pages use different table entries.
pub proof fn lemma_near_pages_keys(q1: u64, q2: u64)
    requires
        q1 < q2,
        q2 - q1 < 0x10_0000_0000,
    ensures
        page_key(q1) != page_key(q2),
{
    vstd::arithmetic::div_mod::lemma_fundamental_div_mod(q1 as int, 0x10_0000_0000);
    vstd::arithmetic::div_mod::lemma_fundamental_div_mod(q2 as int, 0x10_0000_0000);
    if page_key(q1) == page_key(q2) {
        assert(q2 - q1 == 0x10_0000_0000 * (q2 as int / 0x10_0000_0000 - q1 as int / 0x10_0000_0000));
        assert(q2 as int / 0x10_0000_0000 - q1 as int / 0x10_0000_0000 >= 1);
    }
}

/// A page's translation is the frame of its P1 entry: none when its tables are missing.
pub proof fn lemma_translation_is_entry_frame(ctx: ActivePagingContext, q: u64)
    ensures
        ctx.translation(q) == match ctx.page_entry(q) {
            Some(v) => entry_frame(v),
            None => None,
        },
{
}

/// Pages with the same table indexes have the same translation.
pub proof fn lemma_same_key_same_translation(ctx: ActivePagingContext, q1: u64, q2: u64)
    requires
        page_key(q1) == page_key(q2),
    ensures
        ctx.translation(q1) == ctx.translation(q2),
        ctx.page_entry(q1) == ctx.page_entry(q2),
{
    assert(q1 % 0x10_0000_0000 == q2 % 0x10_0000_0000 ==> (q1 / 0x800_0000) % 512 == (q2 / 0x800_0000) % 512 && (q1 / 0x4_0000)
        % 512 == (q2 / 0x4_0000) % 512 && (q1 / 0x200) % 512 == (q2 / 0x200) % 512 && q1 % 512 == q2 % 512) by (bit_vector);
}

/// Mapping a page and then unmapping it leaves every translation as it was: `c1` is what a successful
/// [ActivePagingContext::map_page_to_frame] of `page` made of `c0`, and `c2` what a successful
/// [ActivePagingContext::unmap_page] of it made of `c1`.
pub proof fn law_map_then_unmap(c0: ActivePagingContext, c1: ActivePagingContext, c2: ActivePagingContext, page: u64, frame: u64)
    requires
        c0.translation(page) is None,
        c1.translation(page) == Some(frame),
        forall|q: u64| page_key(q) != page_key(page) ==> #[trigger] c1.translation(q) == c0.translation(q),
        c2.translation(page) is None,
        forall|q: u64| #[trigger] c2.translation(q) == c1.translation(q) || page_key(q) == page_key(page),
    ensures
        forall|q: u64| #[trigger] c2.translation(q) == c0.translation(q),
{
    assert forall|q: u64| #[trigger] c2.translation(q) == c0.translation(q) by {
        if page_key(q) == page_key(page) {
            lemma_same_key_same_translation(c2, q, page);
            lemma_same_key_same_translation(c0, q, page);
        }
    }
}

/// The paging context: the P4 table and, below it, the tables that map the pages. The tables are held
/// as values: [ActivePagingContext::p4_entries] and the functions after it give their raw entries,
/// which the kernel writes into the frames that the processor reads.
pub struct ActivePagingContext {
    entries: Vec<Entry>,
    next: Vec<Option<PageTable3>>,
}

impl ActivePagingContext {
    /// The raw entries of the P4 table.
    pub fn p4_entries(&self) -> (r: Vec<u64>)
        ensures
            r@ == self.entries(),
    {
        raw_entries(&self.entries)
    }

    /// The raw entries of the P3 table at P4 entry `i4`, if it exists.
    pub fn p3_entries(&self, i4: usize) -> (r: Option<Vec<u64>>)
        requires
            self.wf(),
            i4 < ENTRY_COUNT,
        ensures
            r is Some <==> self.next()[i4 as int] is Some,
            r matches Some(v) ==> v@ == self.next()[i4 as int]->0.entries(),
    {
        match &self.next[i4] {
            Some(p3) => Some(raw_entries(&p3.entries)),
            None => None,
        }
    }

    /// The raw entries of the P2 table at P4 entry `i4` and P3 entry `i3`, if it exists.
    pub fn p2_entries(&self, i4: usize, i3: usize) -> (r: Option<Vec<u64>>)
        requires
            self.wf(),
            i4 < ENTRY_COUNT,
            i3 < ENTRY_COUNT,
        ensures
            r is Some <==> (self.next()[i4 as int] matches Some(p3) && p3.next()[i3 as int] is Some),
            r matches Some(v) ==> v@ == self.next()[i4 as int]->0.next()[i3 as int]->0.entries(),
    {
        match &self.next[i4] {
            Some(p3) => match &p3.next[i3] {
                Some(p2) => Some(raw_entries(&p2.entries)),
                None => None,
            },
            None => None,
        }
    }

    /// The raw entries of the P1 table at P4 entry `i4`, P3 entry `i3` and P2 entry `i2`, if it exists.
    pub fn p1_entries(&self, i4: usize, i3: usize, i2: usize) -> (r: Option<Vec<u64>>)
        requires
            self.wf(),
            i4 < ENTRY_COUNT,
            i3 < ENTRY_COUNT,
            i2 < ENTRY_COUNT,
        ensures
            r is Some <==> (self.next()[i4 as int] matches Some(p3) && p3.next()[i3 as int] matches Some(p2)
                && p2.next()[i2 as int] is Some),
            r matches Some(v) ==> v@ == self.next()[i4 as int]->0.next()[i3 as int]->0.next()[i2 as int]->0.entries(),
    {
        match &self.next[i4] {
            Some(p3) => match &p3.next[i3] {
                Some(p2) => match &p2.next[i2] {
                    Some(p1) => Some(raw_entries(&p1.entries)),
                    None => None,
                },
                None => None,
            },
            None => None,
        }
    }

    /// The raw values of the P4 entries.
    pub closed spec fn entries(&self) -> Seq<u64> {
        self.entries@.map_values(|e: Entry| e@)
    }

    /// The P3 tables, by P4 entry.
    pub closed spec fn next(&self) -> Seq<Option<PageTable3>> {
        self.next@
    }

    /// Every used P4 entry holds a table, which points to it.
    pub closed spec fn wf(&self) -> bool {
        &&& self.entries@.len() == ENTRY_COUNT
        &&& self.next@.len() == ENTRY_COUNT
        &&& forall|i: int| 0 <= i < ENTRY_COUNT ==> {
            &&& (#[trigger] self.next@[i] is Some) == (self.entries@[i]@ != 0)
            &&& self.next@[i] matches Some(c) ==> c.wf() && holds_table(self.entries@[i]@)
        }
    }

    /// The counts of used entries are right in every table.
    pub open spec fn counts_exact(&self) -> bool {
        forall|i: int| 0 <= i < ENTRY_COUNT ==> (#[trigger] self.next()[i] matches Some(c) ==> c.counts_exact())
    }

    /// The frame that the page at entries `i4`, `i3`, `i2`, `i1` maps.
    pub open spec fn lookup(&self, i4: int, i3: int, i2: int, i1: int) -> Option<u64> {
        match self.next()[i4] {
            Some(c) => c.lookup(i3, i2, i1),
            None => None,
        }
    }

    /// The raw value of the P1 entry of the page at entries `i4`, `i3`, `i2`, `i1`, if its tables exist.
    pub open spec fn raw(&self, i4: int, i3: int, i2: int, i1: int) -> Option<u64> {
        match self.next()[i4] {
            Some(c) => c.raw(i3, i2, i1),
            None => None,
        }
    }

    /// The raw value of the P1 entry (frame and flags) of page number `q`, if its P3, P2 and P1 tables
    /// exist.
    pub open spec fn page_entry(&self, q: u64) -> Option<u64> {
        let (i4, i3, i2, i1) = page_indexes(q);
        self.raw(i4, i3, i2, i1)
    }

    /// The frame that page number `q` maps to, if it is mapped.
    pub closed spec fn translation(&self, q: u64) -> Option<u64> {
        let (i4, i3, i2, i1) = page_indexes(q);
        self.lookup(i4, i3, i2, i1)
    }

    /// The frames that unmapping page number `q` gives back: the mapped frame, if asked for, then the
    /// frames of the tables that this leaves empty, P1 first.
    pub open spec fn unmap_freed(&self, q: u64, deallocate_frame: bool) -> Seq<u64> {
        let (i4, i3, i2, i1) = page_indexes(q);
        let p3 = self.next()[i4]->0;
        let p2 = p3.next()[i3]->0;
        p3.unmap_freed(i3, i2, i1, deallocate_frame) + (if count_used(p2.next()[i2]->0.entries()) == 1 && count_used(p2.entries())
            == 1 && count_used(p3.entries()) == 1 {
            seq![entry_frame(self.entries()[i4])->0]
        } else {
            Seq::empty()
        })
    }

    /// A paging context that maps nothing.
    pub fn new() -> (r: Self)
        ensures
            r.wf(),
            r.counts_exact(),
            forall|q: u64| #[trigger] r.translation(q) is None,
    {
        let mut next: Vec<Option<PageTable3>> = Vec::new();
        let mut i: usize = 0;
        while i < ENTRY_COUNT
            invariant
                i <= ENTRY_COUNT,
                next@.len() == i,
                forall|k: int| 0 <= k < i ==> (#[trigger] next@[k]) is None,
            decreases ENTRY_COUNT - i,
        {
            next.push(None);
            i = i + 1;
        }
        let t = ActivePagingContext { entries: empty_entry_vec(), next };
        assert forall|q: u64| #[trigger] t.translation(q) is None by {
            assert(t.next()[page_indexes(q).0] is None);
        }
        t
    }

    /// Makes sure that P4 entry `i4` holds a P3 table, creating an empty one in a new frame if it does
    /// not. Tells whether it created one.
    fn create_next_table<A: FrameAllocator>(&mut self, i4: usize, fa: &mut A) -> (r: Result<bool, MemoryError>)
        requires
            old(self).wf(),
            i4 < ENTRY_COUNT,
            old(fa).ready(),
        ensures
            old(self).next()[i4 as int] is Some ==> *final(fa) == *old(fa),
            old(fa).can_hand_out(1) ==> r is Ok,
            forall|k: nat| old(fa).can_hand_out(k + 1) ==> #[trigger] final(fa).can_hand_out(k),
            final(self).wf(),
            final(fa).ready(),
            old(self).next()[i4 as int] is Some ==> r == Ok::<bool, MemoryError>(false) && *final(self) == *old(self)
                && final(fa).in_use() == old(fa).in_use(),
            old(self).next()[i4 as int] is None ==> match r {
                Ok(created) => {
                    &&& created
                    &&& final(self).next()[i4 as int] matches Some(c) && c.entries() == empty_entries() && c.used() == 0
                        && (forall|i: int| 0 <= i < ENTRY_COUNT ==> #[trigger] c.next()[i] is None)
                    &&& exists|f: u64| {
                        &&& #[trigger] final(self).entries() == old(self).entries().update(i4 as int, table_entry_value(0, f))
                        &&& frame_fits(f)
                        &&& !old(fa).in_use().contains(f)
                        &&& final(fa).in_use() == old(fa).in_use().insert(f)
                    }
                    &&& forall|i: int| 0 <= i < ENTRY_COUNT && i != i4 ==> #[trigger] final(self).next()[i] == old(self).next()[i]
                },
                Err(e) => e == MemoryError::NotEnoughPhyMemory && *final(self) == *old(self) && final(fa).in_use() == old(fa).in_use(),
            },
    {
        // check if page table is already allocated
        if self.next[i4].is_some() {
            proof {
                assert forall|k: nat| old(fa).can_hand_out(k + 1) implies #[trigger] fa.can_hand_out(k) by {
                    fa.lemma_can_hand_out_fewer(k);
                }
            }
            return Ok(false);
        }
        // page table is not yet created so allocate a new frame to hold the new page table
        let frame = fa.allocate_frame()?;
        let ghost old_entries = self.entries();
        proof {
            lemma_table_entry(0, frame@);
            assert(old_entries[i4 as int] == 0);
            assert((0x1u64 | 0x2u64) & 0x8000_0000_0000_01ffu64 == 0x3u64) by {
            crate::memory::pages::page_table::lemma_flag_bits();
        }
            assert((0x1u64 | 0x2u64) == 0x3u64) by {
            crate::memory::pages::page_table::lemma_flag_bits();
        }
        }
        // set the new entry
        let flags = EntryFlags::from_bits_truncate(EntryFlags::PRESENT | EntryFlags::WRITABLE);
        assert(flags@ == EntryFlags::PRESENT | EntryFlags::WRITABLE);
        self.entries[i4].set(frame, flags);
        self.next[i4] = Some(PageTable3::new());
        proof {
            assert(self.entries() =~= old_entries.update(i4 as int, table_entry_value(0, frame@)));
        }
        Ok(true)
    }

    /// Maps a specific Page to a specific Frame, creating the page tables on the way with frames of `fa`.
    ///
    /// Fails with `MappingUsedTableEntry` when the page is mapped already, and with `NotEnoughPhyMemory`
    /// when `fa` has no frame for a new table (the tables created before that stay, empty).
    pub fn map_page_to_frame<A: FrameAllocator>(&mut self, page: Page, frame: Frame, flags: EntryFlags, fa: &mut A) -> (r: Result<(), MemoryError>)
        requires
            old(self).wf(),
            frame_fits(frame@),
            old(fa).ready(),
        ensures
            final(self).wf(),
            final(fa).ready(),
            old(fa).in_use().subset_of(final(fa).in_use()),
            old(self).translation(page@) is Some ==> r == Err::<(), MemoryError>(MemoryError::MappingUsedTableEntry)
                && final(self).translation(page@) == old(self).translation(page@)
                && final(self).page_entry(page@) == old(self).page_entry(page@)
                && (old(self).counts_exact() ==> final(self).counts_exact()),
            r is Ok ==> final(self).translation(page@) == Some(frame@) && (old(self).counts_exact() ==> final(self).counts_exact()),
            r is Err ==> old(self).translation(page@) is Some || r == Err::<(), MemoryError>(MemoryError::NotEnoughPhyMemory),
            forall|q: u64| page_key(q) != page_key(page@) ==> #[trigger] final(self).translation(q) == old(self).translation(q),
            old(self).translation(page@) is None && old(self).page_entry(page@) is Some ==> r is Ok,
            old(self).translation(page@) is None && old(fa).can_hand_out(3) ==> r is Ok,
            r is Ok ==> forall|k: nat| old(fa).can_hand_out(k + 3) ==> #[trigger] final(fa).can_hand_out(k),
            r is Ok ==> final(self).page_entry(page@) == Some(
                entry_set_value(0, (frame@ * FRAME_PAGE_SIZE) as u64, flags@ | EntryFlags::PRESENT),
            ),
            forall|q: u64| page_key(q) != page_key(page@) && #[trigger] old(self).page_entry(q) is Some
                ==> final(self).page_entry(q) == old(self).page_entry(q),
    {
        let ghost s0 = *self;
        let i4 = page.p4_index();
        let i3 = page.p3_index();
        let i2 = page.p2_index();
        let i1 = page.p1_index();
        proof {
            if fa.can_hand_out(3) {
                fa.lemma_can_hand_out_fewer(2);
                fa.lemma_can_hand_out_fewer(1);
            }
        }
        let created = self.create_next_table(i4, fa)?;
        proof {
            if old(fa).can_hand_out(3) {
                assert(fa.can_hand_out(2));
            }
        }
        let ghost s1 = *self;
        let ghost p3_old = s1.next()[i4 as int]->0;
        proof {
            assert(s1.next()[i4 as int] is Some);
            if created {
                assert(p3_old.entries() == empty_entries());
            }
        }
        let r = match &mut self.next[i4] {
            Some(p3) => p3.map_in(i3, i2, i1, frame, flags, fa),
            None => Err(MemoryError::MappingUsedTableEntry),
        };
        let ghost p3_new = self.next()[i4 as int]->0;
        assert(self.next() =~= s1.next().update(i4 as int, Some(p3_new)));
        proof {
            assert forall|q: u64| page_key(q) != page_key(page@) && #[trigger] s0.page_entry(q) is Some implies self.page_entry(q)
                == s0.page_entry(q) by {
                let (a, b, c, d) = page_indexes(q);
                if page_indexes(q) == page_indexes(page@) {
                    lemma_page_indexes_key(q, page@);
                }
                assert(0 <= a < 512 && 0 <= b < 512 && 0 <= c < 512 && 0 <= d < 512);
                if a != i4 {
                    assert(self.next()[a] == s0.next()[a]);
                } else {
                    assert(s0.next()[i4 as int] is Some);
                    assert(p3_old == s0.next()[i4 as int]->0);
                    assert(p3_new.raw(b, c, d) == p3_old.raw(b, c, d));
                }
            }
            if s0.page_entry(page@) is Some {
                assert(p3_old == s0.next()[i4 as int]->0);
            }
        }
        proof {
            assert forall|q: u64| page_key(q) != page_key(page@) implies #[trigger] self.translation(q) == s0.translation(q) by {
                let (a, b, c, d) = page_indexes(q);
                if page_indexes(q) == page_indexes(page@) {
                    lemma_page_indexes_key(q, page@);
                }
                assert(0 <= a < 512 && 0 <= b < 512 && 0 <= c < 512 && 0 <= d < 512);
                if a != i4 {
                    assert(self.next()[a] == s0.next()[a]);
                } else {
                    assert(p3_new.lookup(b, c, d) == p3_old.lookup(b, c, d));
                    if created {
                        assert(p3_old.next()[b] is None);
                    }
                }
            }
            if s0.counts_exact() && (r is Ok || s0.translation(page@) is Some) {
                assert forall|i: int| 0 <= i < ENTRY_COUNT implies (#[trigger] self.next()[i] matches Some(c) ==> c.counts_exact()) by {
                    if i != i4 {
                        assert(self.next()[i] == s0.next()[i]);
                    } else if created {
                        lemma_count_used_bounds(p3_old.entries());
                        assert forall|j: int| 0 <= j < ENTRY_COUNT implies (#[trigger] p3_old.next()[j] matches Some(c) ==> c.counts_exact()) by {
                            assert(p3_old.next()[j] is None);
                        }
                    }
                }
            }
        }
        r
    }

    /// This will unmap a page and deallocate the respective frame, if requested. In the event that a page
    /// table gets emptied, it will also be deallocated.
    ///
    /// If an unmapped page is given, it is simply ignored as there is nothing to unmap.
    ///
    /// The frames that it gives back (the page's frame when asked to, and those of the tables left empty)
    /// must be in use with the frame allocator, which refuses to take back a frame twice.
    pub fn unmap_page<A: FrameAllocator>(&mut self, page: Page, deallocate_frame: bool, fa: &mut A) -> (r: Result<(), MemoryError>)
        requires
            old(self).wf(),
            old(self).counts_exact(),
            old(fa).ready(),
            old(self).translation(page@) is Some ==> can_free(old(fa).in_use(), old(self).unmap_freed(page@, deallocate_frame)),
        ensures
            final(self).wf(),
            final(self).counts_exact(),
            final(fa).ready(),
            r is Ok,
            old(self).translation(page@) is None ==> *final(self) == *old(self) && final(fa).in_use() == old(fa).in_use(),
            old(self).translation(page@) is Some ==> final(self).translation(page@) is None
                && final(fa).in_use() == old(fa).in_use().difference(old(self).unmap_freed(page@, deallocate_frame).to_set()),
            forall|q: u64| #[trigger] final(self).translation(q) == old(self).translation(q) || page_key(q) == page_key(page@),
    {
        let ghost s0 = *self;
        let ghost freed = s0.unmap_freed(page@, deallocate_frame);
        let ghost in0 = fa.in_use();
        if self.translate_page(page).is_none() {
            return Ok(());
        }
        let i4 = page.p4_index();
        let i3 = page.p3_index();
        let i2 = page.p2_index();
        let i1 = page.p1_index();
        let ghost p3_old = s0.next()[i4 as int]->0;
        let ghost freed3 = p3_old.unmap_freed(i3 as int, i2 as int, i1 as int, deallocate_frame);
        proof {
            if s0.translation(page@) is Some {
                assert forall|k: int| 0 <= k < freed3.len() implies in0.contains(#[trigger] freed3[k]) by {
                    assert(freed[k] == freed3[k]);
                }
                assert(freed3.no_duplicates()) by {
                    assert forall|x: int, y: int| 0 <= x < freed3.len() && 0 <= y < freed3.len() && x != y implies freed3[x] != freed3[y] by {
                        assert(freed[x] == freed3[x] && freed[y] == freed3[y]);
                    }
                }
            }
        }
        let res = match &mut self.next[i4] {
            Some(p3) => p3.unmap_in(i3, i2, i1, deallocate_frame, fa),
            None => Err(MemoryError::UnmappingUnusedTableEntry),
        };
        let ghost p3_new = self.next()[i4 as int]->0;
        assert(self.next() =~= s0.next().update(i4 as int, Some(p3_new)));
        if res.is_err() {
            // the page is mapped, so unmapping it in its P3 table cannot fail
            proof {
                assert(p3_old.lookup(i3 as int, i2 as int, i1 as int) == s0.translation(page@));
                assert(false);
            }
            return res;
        }
        let ghost in1 = fa.in_use();
        let empty = match &self.next[i4] {
            Some(p3) => p3.used_entries_count == 0,
            None => false,
        };
        proof {
            lemma_count_used_bounds(p3_old.entries());
            lemma_zero_entry();
        }
        if empty {
            proof {
                let p2_old = p3_old.next()[i3 as int]->0;
                assert(p3_old.entries()[i3 as int] != 0);
                lemma_only_used(p3_old.entries(), i3 as int);
            }
            let table_frame = self.entries[i4].pointed_frame().unwrap();
            self.entries[i4].set_unused();
            self.next[i4] = None;
            proof {
                let k: int = freed3.len() as int;
                assert(freed[k] == table_frame@);
                assert forall|x: int| 0 <= x < freed3.len() implies freed3[x] != table_frame@ by {
                    assert(freed[x] == freed3[x]);
                }
                assert(in1.contains(table_frame@)) by {
                    assert(!freed3.to_set().contains(table_frame@));
                }
            }
            fa.deallocate_frame(table_frame);
        }
        proof {
            assert forall|q: u64| #[trigger] self.translation(q) == s0.translation(q) || page_key(q) == page_key(page@) by {
                let (a, b, c, d) = page_indexes(q);
                if page_indexes(q) == page_indexes(page@) {
                    lemma_page_indexes_key(q, page@);
                } else if a != i4 {
                    assert(self.next()[a] == s0.next()[a]);
                } else if empty {
                    let p2_old = p3_old.next()[i3 as int]->0;
                    assert(p3_new.used() == 0);
                    assert(p3_old.used() == count_used(p3_old.entries()));
                    assert(p3_old.entries()[i3 as int] != 0);
                    assert(count_used(p3_old.next()[i3 as int]->0.next()[i2 as int]->0.entries()) == 1
                        && count_used(p3_old.next()[i3 as int]->0.entries()) == 1);
                    if b != i3 {
                        assert(p3_old.entries()[b] == 0);
                        assert(p3_old.next()[b] is None);
                    } else {
                        assert(p3_old.next()[i3 as int] is Some);
                        assert(p2_old.next()[i2 as int] is Some);
                        assert(count_used(p2_old.entries()) == 1);
                        lemma_only_used(p2_old.entries(), i2 as int);
                        assert(p2_old.wf());
                        if c != i2 {
                            assert(p2_old.entries()[c] == 0);
                            assert(p2_old.next@[c] is None);
                        } else {
                            let p1_old = p2_old.next()[i2 as int]->0;
                            lemma_only_used(p1_old.entries(), i1 as int);
                            assert(p1_old.entries()[d] == 0);
                        }
                    }
                } else {
                    assert(p3_new.lookup(b, c, d) == p3_old.lookup(b, c, d));
                }
            }
            assert forall|i: int| 0 <= i < ENTRY_COUNT implies (#[trigger] self.next()[i] matches Some(c) ==> c.counts_exact()) by {
                if i != i4 {
                    assert(self.next()[i] == s0.next()[i]);
                }
            }
            assert(fa.in_use() =~= in0.difference(freed.to_set())) by {
                assert forall|g: u64| freed.to_set().contains(g) <==> freed3.to_set().contains(g) || (empty && g == freed[freed.len() - 1]) by {
                    if freed.to_set().contains(g) {
                        let k = choose|k: int| 0 <= k < freed.len() && freed[k] == g;
                        if k < freed3.len() {
                            assert(freed3[k] == g);
                        }
                    }
                    if freed3.to_set().contains(g) {
                        let k = choose|k: int| 0 <= k < freed3.len() && freed3[k] == g;
                        assert(freed[k] == g);
                    }
                    if empty && g == freed[freed.len() - 1] {
                        assert(freed.to_set().contains(freed[freed.len() - 1]));
                    }
                }
            }
        }
        Ok(())
    }

    /// Maps a specific Page to a (random) Frame: one that `fa` hands out.
    pub fn map_page<A: FrameAllocator>(&mut self, page: Page, flags: EntryFlags, fa: &mut A) -> (r: Result<(), MemoryError>)
        requires
            old(self).wf(),
            old(fa).ready(),
        ensures
            final(self).wf(),
            final(fa).ready(),
            old(fa).in_use().subset_of(final(fa).in_use()),
            r is Ok ==> (exists|f: u64| !old(fa).in_use().contains(f) && #[trigger] final(self).translation(page@) == Some(f))
                && (old(self).counts_exact() ==> final(self).counts_exact()),
            r is Err ==> r == Err::<(), MemoryError>(MemoryError::MappingUsedTableEntry) && old(self).translation(page@) is Some
                || r == Err::<(), MemoryError>(MemoryError::NotEnoughPhyMemory),
            old(self).translation(page@) is Some ==> r is Err,
            old(self).translation(page@) is None && old(fa).can_hand_out(4) ==> r is Ok,
            r is Ok ==> forall|k: nat| old(fa).can_hand_out(k + 4) ==> #[trigger] final(fa).can_hand_out(k),
            forall|q: u64| page_key(q) != page_key(page@) ==> #[trigger] final(self).translation(q) == old(self).translation(q),
            r is Ok ==> final(self).page_entry(page@) == Some(
                entry_set_value(0, (final(self).translation(page@)->0 * FRAME_PAGE_SIZE) as u64, flags@ | EntryFlags::PRESENT),
            ),
            forall|q: u64| page_key(q) != page_key(page@) && #[trigger] old(self).page_entry(q) is Some
                ==> final(self).page_entry(q) == old(self).page_entry(q),
    {
        // get a random (free) frame
        proof {
            if fa.can_hand_out(4) {
                fa.lemma_can_hand_out_fewer(3);
                fa.lemma_can_hand_out_fewer(2);
                fa.lemma_can_hand_out_fewer(1);
            }
        }
        let frame = fa.allocate_frame()?;
        proof {
            if old(fa).can_hand_out(4) {
                assert(fa.can_hand_out(3));
            }
        }
        let ghost in1 = fa.in_use();
        let r = self.map_page_to_frame(page, frame, flags, fa);
        proof {
            if r is Ok {
                assert(!old(fa).in_use().contains(frame@) && self.translation(page@) == Some(frame@));
            }
        }
        r
    }

    /// Maps the Page containing the `virtual_addr` to a (random) Frame: one that `fa` hands out.
    pub fn map<A: FrameAllocator>(&mut self, virtual_addr: VirtualAddress, flags: EntryFlags, fa: &mut A) -> (r: Result<(), MemoryError>)
        requires
            old(self).wf(),
            old(fa).ready(),
        ensures
            final(self).wf(),
            final(fa).ready(),
            old(fa).in_use().subset_of(final(fa).in_use()),
            !is_canonical(virtual_addr) ==> r == Err::<(), MemoryError>(MemoryError::PageInvalidVirtualAddress) && *final(self) == *old(self),
            r is Ok ==> (exists|f: u64| !old(fa).in_use().contains(f) && #[trigger] final(self).translation(virtual_addr / FRAME_PAGE_SIZE) == Some(f))
                && (old(self).counts_exact() ==> final(self).counts_exact()),
            r is Err ==> r == Err::<(), MemoryError>(MemoryError::PageInvalidVirtualAddress) || r == Err::<(), MemoryError>(
                MemoryError::MappingUsedTableEntry,
            ) || r == Err::<(), MemoryError>(MemoryError::NotEnoughPhyMemory),
            old(self).translation(virtual_addr / FRAME_PAGE_SIZE) is Some ==> r is Err,
            is_canonical(virtual_addr) && old(self).translation(virtual_addr / FRAME_PAGE_SIZE) is None && old(fa).can_hand_out(4)
                ==> r is Ok,
            r is Ok ==> forall|k: nat| old(fa).can_hand_out(k + 4) ==> #[trigger] final(fa).can_hand_out(k),
            forall|q: u64| page_key(q) != page_key(virtual_addr / FRAME_PAGE_SIZE) ==> #[trigger] final(self).translation(q) == old(self).translation(q),
            r is Ok ==> final(self).page_entry(virtual_addr / FRAME_PAGE_SIZE) == Some(
                entry_set_value(0, (final(self).translation(virtual_addr / FRAME_PAGE_SIZE)->0 * FRAME_PAGE_SIZE) as u64, flags@ | EntryFlags::PRESENT),
            ),
            forall|q: u64| page_key(q) != page_key(virtual_addr / FRAME_PAGE_SIZE) && #[trigger] old(self).page_entry(q) is Some
                ==> final(self).page_entry(q) == old(self).page_entry(q),
    {
        let page = Page::from_virt_addr(virtual_addr)?;
        self.map_page(page, flags, fa)
    }

    /// Maps a Frame to a Page with same addr (identity mapping).
    pub fn identity_map<A: FrameAllocator>(&mut self, frame: Frame, flags: EntryFlags, fa: &mut A) -> (r: Result<(), MemoryError>)
        requires
            old(self).wf(),
            frame_fits(frame@),
            old(fa).ready(),
        ensures
            final(self).wf(),
            final(fa).ready(),
            old(fa).in_use().subset_of(final(fa).in_use()),
            !is_canonical((frame@ * FRAME_PAGE_SIZE) as u64) ==> r == Err::<(), MemoryError>(MemoryError::PageInvalidVirtualAddress),
            r is Ok ==> final(self).translation(frame@) == Some(frame@) && (old(self).counts_exact() ==> final(self).counts_exact()),
            forall|q: u64| page_key(q) != page_key(frame@) ==> #[trigger] final(self).translation(q) == old(self).translation(q),
            old(self).translation(frame@) is None && old(self).page_entry(frame@) is Some && is_canonical((frame@ * FRAME_PAGE_SIZE) as u64)
                ==> r is Ok,
            old(self).translation(frame@) is None && old(fa).can_hand_out(3) && is_canonical((frame@ * FRAME_PAGE_SIZE) as u64)
                ==> r is Ok,
            r is Ok ==> final(self).page_entry(frame@) == Some(
                entry_set_value(0, (frame@ * FRAME_PAGE_SIZE) as u64, flags@ | EntryFlags::PRESENT),
            ),
            forall|q: u64| page_key(q) != page_key(frame@) && #[trigger] old(self).page_entry(q) is Some
                ==> final(self).page_entry(q) == old(self).page_entry(q),
    {
        let addr = frame.addr();
        proof {
            crate::memory::frames::lemma_frame_addr_roundtrip(frame);
        }
        let page = Page::from_virt_addr(addr)?;
        self.map_page_to_frame(page, frame, flags, fa)
    }

    /// This takes a Page and returns the respective Frame if the address is mapped.
    pub fn translate_page(&self, page: Page) -> (r: Option<Frame>)
        requires
            self.wf(),
        ensures
            r is Some <==> self.translation(page@) is Some,
            r matches Some(f) ==> self.translation(page@) == Some(f@),
    {
        let i4 = page.p4_index();
        let i3 = page.p3_index();
        let i2 = page.p2_index();
        let i1 = page.p1_index();
        match &self.next[i4] {
            None => None,
            Some(p3) => match &p3.next[i3] {
                None => None,
                Some(p2) => match &p2.next[i2] {
                    None => None,
                    Some(p1) => p1.entries[i1].pointed_frame(),
                },
            },
        }
    }

    /// Takes the `virtual address` and returns the respective physical address if it exists (if it is mapped).
    pub fn translate(&self, virtual_addr: VirtualAddress) -> (r: Result<Option<PhysicalAddress>, MemoryError>)
        requires
            self.wf(),
        ensures
            !is_canonical(virtual_addr) ==> r == Err::<Option<PhysicalAddress>, MemoryError>(MemoryError::PageInvalidVirtualAddress),
            is_canonical(virtual_addr) ==> r == Ok::<Option<PhysicalAddress>, MemoryError>(
                match self.translation(virtual_addr / FRAME_PAGE_SIZE) {
                    Some(f) => Some((f * FRAME_PAGE_SIZE + virtual_addr % FRAME_PAGE_SIZE) as u64),
                    None => None,
                },
            ),
    {
        let offset = virtual_addr % FRAME_PAGE_SIZE;
        let page = Page::from_virt_addr(virtual_addr)?;
        match self.translate_page(page) {
            Some(frame) => {
                proof {
                    crate::memory::frames::lemma_frame_addr_roundtrip(frame);
                }
                let a = frame.addr();
                assert(a + offset <= u64::MAX) by {
                    assert(a % 4096 == 0) by {
                        vstd::arithmetic::div_mod::lemma_mod_multiples_basic(frame@ as int, 4096);
                    }
                    assert(a <= u64::MAX - 4095);
                }
                Ok(Some(a + offset))
            },
            None => Ok(None),
        }
    }
}

} // verus!
