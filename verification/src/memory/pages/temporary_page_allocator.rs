//! A page allocator of eight pages from [ORIGINALLY_IDENTITY_MAPPED] on, meant to be used until a permanent
//! page allocator is initialized.
use vstd::prelude::*;
use crate::data_structures::bitmap::Bitmap;
use crate::kernel::{Kernel, ORIGINALLY_IDENTITY_MAPPED};
use crate::memory::{MemoryError, VirtualAddress, FRAME_PAGE_SIZE};
use crate::memory::frames::FrameAllocator;
use crate::memory::frames::bitmap_frame_allocator::first_clear;
use crate::memory::pages::Page;
use crate::memory::pages::page_table::EntryFlags;
use crate::memory::pages::paging::{can_free, page_key, ActivePagingContext};

verus! {

/// The number of pages the allocator holds.
pub const TEMPORARY_PAGES: usize = 8;

/// The page number of the first page the allocator holds.
pub open spec fn first_temporary_page() -> int {
    ORIGINALLY_IDENTITY_MAPPED as int / FRAME_PAGE_SIZE as int
}

/// A page allocator meant to be used until a permanent page allocator is initialized.
pub struct TemporaryPageAllocator {
    bitmap: Bitmap<1>,
    start_addr: VirtualAddress,
    initialized: bool,
}

impl TemporaryPageAllocator {
    /// Which of the eight pages are in use.
    pub closed spec fn used(&self) -> Seq<bool> {
        self.bitmap@
    }

    /// The address of the first page.
    pub closed spec fn start(&self) -> u64 {
        self.start_addr
    }

    /// The allocator was initialized.
    pub closed spec fn is_initialized(&self) -> bool {
        self.initialized
    }

    /// The allocator holds eight pages from [ORIGINALLY_IDENTITY_MAPPED] on.
    pub closed spec fn wf(&self) -> bool {
        &&& self.bitmap@.len() == TEMPORARY_PAGES
        &&& self.start_addr == ORIGINALLY_IDENTITY_MAPPED
    }

    /// Create a new **TemporaryPageAllocator** that holds 8 pages for allocation starting at
    /// [ORIGINALLY_IDENTITY_MAPPED].
    pub fn new() -> (r: Self)
        ensures
            r.wf(),
            !r.is_initialized(),
            r.used() == Seq::new(TEMPORARY_PAGES as nat, |i: int| false),
            r.start() == ORIGINALLY_IDENTITY_MAPPED,
    {
        TemporaryPageAllocator { bitmap: Bitmap::new(None), start_addr: Kernel::originally_identity_mapped(), initialized: false }
    }

    /// Checks that the pages can be translated in `ctx` and marks the allocator as initialized.
    pub fn init(&mut self, ctx: &ActivePagingContext) -> (r: Result<(), MemoryError>)
        requires
            old(self).wf(),
            !old(self).is_initialized(),
            ctx.wf(),
        ensures
            final(self).wf(),
            final(self).used() == old(self).used(),
            r is Ok,
            final(self).is_initialized(),
    {
        // make sure that the pages are not being used
        let mut i: u64 = 0;
        while i < TEMPORARY_PAGES as u64
            invariant
                i <= TEMPORARY_PAGES,
                self.start_addr == ORIGINALLY_IDENTITY_MAPPED,
                ctx.wf(),
            decreases TEMPORARY_PAGES - i,
        {
            let addr = self.start_addr + i * FRAME_PAGE_SIZE;
            match ctx.translate(addr) {
                Ok(_) => {},
                Err(_) => {
                    return Err(MemoryError::BadTemporaryPageAllocator);
                },
            }
            i = i + 1;
        }
        self.initialized = true;
        Ok(())
    }

    /// Takes the first free page, and maps it in `ctx` to a frame of `fa` if `map_page`.
    pub fn allocate<A: FrameAllocator>(&mut self, map_page: bool, ctx: &mut ActivePagingContext, fa: &mut A) -> (r: Result<Page, MemoryError>)
        requires
            old(self).wf(),
            old(self).is_initialized(),
            old(ctx).wf(),
            old(fa).ready(),
        ensures
            final(self).wf(),
            final(self).is_initialized(),
            final(ctx).wf(),
            final(fa).ready(),
            old(fa).in_use().subset_of(final(fa).in_use()),
            match first_clear(old(self).used(), 0, TEMPORARY_PAGES as int) {
                None => r == Err::<Page, MemoryError>(MemoryError::NotEnoughVirMemory) && final(self).used() == old(self).used()
                    && *final(ctx) == *old(ctx),
                Some(i) => {
                    let p = first_temporary_page() + i;
                    &&& final(self).used() == old(self).used().update(i, true)
                    &&& !map_page ==> (r matches Ok(page) && page@ == p) && *final(ctx) == *old(ctx)
                    &&& map_page ==> {
                        &&& r matches Ok(page) ==> page@ == p && final(ctx).translation(p as u64) is Some
                            && !old(fa).in_use().contains(final(ctx).translation(p as u64)->0)
                        &&& r is Err ==> (r == Err::<Page, MemoryError>(MemoryError::MappingUsedTableEntry) && old(ctx).translation(
                            p as u64,
                        ) is Some) || r == Err::<Page, MemoryError>(MemoryError::NotEnoughPhyMemory)
                        &&& old(ctx).translation(p as u64) is Some ==> r is Err
                        &&& old(ctx).translation(p as u64) is None && old(fa).can_hand_out(4) ==> r is Ok
                        &&& forall|q: u64| page_key(q) != page_key(p as u64) ==> #[trigger] final(ctx).translation(q)
                            == old(ctx).translation(q)
                    }
                },
            },
    {
        // look for the first free page and return it
        let mut idx: usize = 0;
        while idx < TEMPORARY_PAGES
            invariant
                idx <= TEMPORARY_PAGES,
                self.bitmap@.len() == TEMPORARY_PAGES,
                first_clear(self.bitmap@, 0, TEMPORARY_PAGES as int) == first_clear(self.bitmap@, idx as int, TEMPORARY_PAGES as int),
            ensures
                idx < TEMPORARY_PAGES ==> first_clear(self.bitmap@, 0, TEMPORARY_PAGES as int) == Some(idx as int),
                idx >= TEMPORARY_PAGES ==> first_clear(self.bitmap@, 0, TEMPORARY_PAGES as int) is None,
            decreases TEMPORARY_PAGES - idx,
        {
            if self.bitmap.get(idx) == Some(false) {
                break;
            }
            idx = idx + 1;
        }
        if idx >= TEMPORARY_PAGES {
            return Err(MemoryError::NotEnoughVirMemory);
        }
        self.bitmap.set(idx, true);
        let addr = self.start_addr + idx as u64 * FRAME_PAGE_SIZE;
        proof {
            vstd::arithmetic::div_mod::lemma_div_multiples_vanish_fancy(0x40000 + idx as int, 0, 4096);
        }
        let page = Page::from_virt_addr(addr)?;
        if map_page {
            let flags = EntryFlags::from_bits_truncate(EntryFlags::PRESENT | EntryFlags::WRITABLE | EntryFlags::NO_EXECUTE);
            ctx.map_page(page, flags, fa)?;
        }
        Ok(page)
    }

    /// Gives back `page`, unmapping it from `ctx` (and giving its frame back to `fa`) if `unmap_page`.
    pub fn deallocate<A: FrameAllocator>(&mut self, page: Page, unmap_page: bool, ctx: &mut ActivePagingContext, fa: &mut A)
        requires
            old(self).wf(),
            old(self).is_initialized(),
            old(ctx).wf(),
            old(fa).ready(),
            first_temporary_page() <= page@ < first_temporary_page() + TEMPORARY_PAGES,
            old(self).used()[page@ - first_temporary_page()],
            unmap_page ==> old(ctx).counts_exact() && old(ctx).translation(page@) is Some && can_free(
                old(fa).in_use(),
                old(ctx).unmap_freed(page@, true),
            ),
        ensures
            final(self).wf(),
            final(self).is_initialized(),
            final(ctx).wf(),
            final(fa).ready(),
            final(self).used() == old(self).used().update(page@ - first_temporary_page(), false),
            !unmap_page ==> *final(ctx) == *old(ctx) && final(fa).in_use() == old(fa).in_use(),
            unmap_page ==> final(ctx).translation(page@) is None && final(fa).in_use() == old(fa).in_use().difference(
                old(ctx).unmap_freed(page@, true).to_set(),
            ) && forall|q: u64| page_key(q) != page_key(page@) ==> #[trigger] final(ctx).translation(q) == old(ctx).translation(q),
    {
        self.deallocate_contiguous(page, 1, unmap_page, ctx, fa);
        proof {
            assert(self.used() =~= old(self).used().update(page@ - first_temporary_page(), false));
        }
    }

    /// Gives back the `count` pages from `page` on. Unmapping (`unmap_pages`) is done for one page at a time
    /// only: with more, the frames that each unmap frees depend on the ones before.
    pub fn deallocate_contiguous<A: FrameAllocator>(
        &mut self,
        page: Page,
        count: usize,
        unmap_pages: bool,
        ctx: &mut ActivePagingContext,
        fa: &mut A,
    )
        requires
            old(self).wf(),
            old(self).is_initialized(),
            old(ctx).wf(),
            old(fa).ready(),
            count > 0,
            first_temporary_page() <= page@,
            page@ + count <= first_temporary_page() + TEMPORARY_PAGES,
            forall|i: int| page@ - first_temporary_page() <= i < page@ - first_temporary_page() + count ==> #[trigger] old(self).used()[i],
            unmap_pages ==> count == 1 && old(ctx).counts_exact() && old(ctx).translation(page@) is Some && can_free(
                old(fa).in_use(),
                old(ctx).unmap_freed(page@, true),
            ),
        ensures
            final(self).wf(),
            final(self).is_initialized(),
            final(ctx).wf(),
            final(fa).ready(),
            final(self).used() == Seq::new(
                TEMPORARY_PAGES as nat,
                |i: int|
                    if page@ - first_temporary_page() <= i < page@ - first_temporary_page() + count {
                        false
                    } else {
                        old(self).used()[i]
                    },
            ),
            !unmap_pages ==> *final(ctx) == *old(ctx) && final(fa).in_use() == old(fa).in_use(),
            unmap_pages ==> final(ctx).translation(page@) is None && final(fa).in_use() == old(fa).in_use().difference(
                old(ctx).unmap_freed(page@, true).to_set(),
            ) && forall|q: u64| page_key(q) != page_key(page@) ==> #[trigger] final(ctx).translation(q) == old(ctx).translation(q),
    {
        let ghost used0 = self.used();
        let ghost first = page@ - first_temporary_page();
        let base = page.addr();
        let mut offset: u64 = 0;
        while offset < count as u64
            invariant
                offset <= count,
                count <= TEMPORARY_PAGES,
                base == page@ * FRAME_PAGE_SIZE,
                first == page@ - first_temporary_page(),
                0 <= first,
                first + count <= TEMPORARY_PAGES,
                self.wf(),
                self.initialized,
                ctx.wf(),
                fa.ready(),
                unmap_pages ==> count == 1,
                unmap_pages ==> old(ctx).counts_exact() && old(ctx).translation(page@) is Some && can_free(
                    old(fa).in_use(),
                    old(ctx).unmap_freed(page@, true),
                ),
                unmap_pages && offset == 0 ==> *ctx == *old(ctx) && *fa == *old(fa),
                !unmap_pages ==> *ctx == *old(ctx) && *fa == *old(fa),
                unmap_pages && offset == 1 ==> ctx.translation(page@) is None && fa.in_use() == old(fa).in_use().difference(
                    old(ctx).unmap_freed(page@, true).to_set(),
                ) && forall|q: u64| page_key(q) != page_key(page@) ==> #[trigger] ctx.translation(q) == old(ctx).translation(q),
                forall|i: int|
                    0 <= i < TEMPORARY_PAGES ==> #[trigger] self.used()[i] == if first <= i < first + offset {
                        false
                    } else {
                        used0[i]
                    },
                used0 == old(self).used(),
            decreases count - offset,
        {
            let page_addr = base + offset * FRAME_PAGE_SIZE;
            proof {
                vstd::arithmetic::div_mod::lemma_div_multiples_vanish_fancy(page@ + offset as int, 0, 4096);
            }
            let page_at_offset = match Page::from_virt_addr(page_addr) {
                Ok(p) => p,
                Err(_) => {
                    return;
                },
            };
            // the page was previously handed out by this allocator
            let bit_idx = ((page_at_offset.addr() - self.start_addr) / FRAME_PAGE_SIZE) as usize;
            proof {
                vstd::arithmetic::div_mod::lemma_div_multiples_vanish_fancy(first + offset as int, 0, 4096);
                assert(bit_idx == first + offset);
            }
            // deallocate
            let ghost used1 = self.used();
            self.bitmap.set(bit_idx, false);
            proof {
                assert forall|i: int| 0 <= i < TEMPORARY_PAGES implies #[trigger] self.used()[i] == if first <= i < first + offset + 1 {
                    false
                } else {
                    used0[i]
                } by {
                    if i != bit_idx {
                        assert(self.used()[i] == used1[i]);
                    }
                }
            }
            if unmap_pages {
                let res = ctx.unmap_page(page_at_offset, true, fa);
                proof {
                    assert(res is Ok);
                }
            }
            offset = offset + 1;
        }
        proof {
            assert(self.used() =~= Seq::new(
                TEMPORARY_PAGES as nat,
                |i: int|
                    if page@ - first_temporary_page() <= i < page@ - first_temporary_page() + count {
                        false
                    } else {
                        old(self).used()[i]
                    },
            ));
        }
    }
}

} // verus!
