//! The two stage page allocator of the kernel: the temporary allocator until the higher half remapping,
//! then the bitmap allocator.
use vstd::prelude::*;
use crate::memory::MemoryError;
use crate::memory::frames::FrameAllocator;
use crate::memory::pages::Page;
use crate::memory::pages::paging::ActivePagingContext;
use crate::memory::pages::simple_page_allocator::{
    backing_owner, first_backing_page, fits_somewhere, grows_with, is_backing, is_first_fit, page_used, shrinks_with,
    total_pages, valid_level2_start, BitmapPageAllocator, HH_START, LEVEL1_LEN, LEVEL2_BITS, LEVEL2_PAGES,
};
use crate::memory::pages::temporary_page_allocator::{first_temporary_page, TemporaryPageAllocator, TEMPORARY_PAGES};
use crate::memory::frames::bitmap_frame_allocator::first_clear;
use crate::memory::{VirtualAddress, FRAME_PAGE_SIZE};

verus! {

/// The page allocator in use: the first stage until [GlobalPageAllocator::switch], the second after.
pub struct GlobalPageAllocator {
    first_stage: TemporaryPageAllocator,
    second_stage: BitmapPageAllocator,
    switched: bool,
}

impl GlobalPageAllocator {
    /// The second stage is in use.
    pub closed spec fn is_switched(&self) -> bool {
        self.switched
    }

    /// The first stage allocator.
    pub closed spec fn first(&self) -> TemporaryPageAllocator {
        self.first_stage
    }

    /// The second stage allocator.
    pub closed spec fn second(&self) -> BitmapPageAllocator {
        self.second_stage
    }

    /// A global allocator on a new temporary allocator and a new bitmap allocator, in the first stage.
    pub fn new() -> (r: Self)
        ensures
            !r.is_switched(),
            r.first().wf(),
            !r.first().is_initialized(),
            r.second().wf(),
            !r.second().is_initialized(),
    {
        GlobalPageAllocator { first_stage: TemporaryPageAllocator::new(), second_stage: BitmapPageAllocator::new(), switched: false }
    }

    /// Switches from the first stage page allocator to the second stage.
    pub fn switch(&mut self)
        requires
            !old(self).is_switched(),
        ensures
            final(self).is_switched(),
            final(self).first() == old(self).first(),
            final(self).second() == old(self).second(),
    {
        self.switched = true;
    }

    /// Sets the first stage page allocator to `allocator`.
    pub fn set_first_stage_allocator(&mut self, allocator: TemporaryPageAllocator)
        ensures
            final(self).first() == allocator,
            final(self).second() == old(self).second(),
            final(self).is_switched() == old(self).is_switched(),
    {
        self.first_stage = allocator;
    }

    /// Sets the second stage page allocator to `allocator`.
    pub fn set_second_stage_allocator(&mut self, allocator: BitmapPageAllocator)
        ensures
            final(self).second() == allocator,
            final(self).first() == old(self).first(),
            final(self).is_switched() == old(self).is_switched(),
    {
        self.second_stage = allocator;
    }

    /// Allocates a page from the allocator in use (the first stage does not map it).
    pub fn allocate<A: FrameAllocator>(&mut self, ctx: &mut ActivePagingContext, fa: &mut A) -> (r: Result<Page, MemoryError>)
        requires
            old(self).is_switched() ==> old(self).second().wf() && old(self).second().is_initialized()
                && !old(self).second().block_at_missing_bitmap_end(1),
            !old(self).is_switched() ==> old(self).first().wf() && old(self).first().is_initialized() && old(ctx).wf()
                && old(fa).ready(),
        ensures
            final(self).is_switched() == old(self).is_switched(),
            old(self).is_switched() ==> {
                let v = old(self).second()@;
                let from = old(self).second().search_from();
                &&& final(self).first() == old(self).first()
                &&& final(self).second().wf()
                &&& (r is Ok <==> fits_somewhere(v, from, 1))
                &&& r matches Ok(page) ==> is_first_fit(v, from, 1, page@ - HH_START as int / FRAME_PAGE_SIZE as int)
                    && grows_with(
                    v,
                    final(self).second()@,
                    old(self).second().level2_start(),
                    page@ - HH_START as int / FRAME_PAGE_SIZE as int,
                    1,
                )
                &&& r is Err ==> r == Err::<Page, MemoryError>(MemoryError::NotEnoughVirMemory) && final(self).second()@ == v
            },
            !old(self).is_switched() ==> {
                &&& final(self).second() == old(self).second()
                &&& final(self).first().wf()
                &&& *final(ctx) == *old(ctx)
                &&& match first_clear(old(self).first().used(), 0, TEMPORARY_PAGES as int) {
                    None => r == Err::<Page, MemoryError>(MemoryError::NotEnoughVirMemory) && final(self).first().used()
                        == old(self).first().used(),
                    Some(i) => final(self).first().used() == old(self).first().used().update(i, true)
                        && (r matches Ok(page) && page@ == first_temporary_page() + i),
                }
            },
    {
        if self.switched {
            self.second_stage.allocate()
        } else {
            self.first_stage.allocate(false, ctx, fa)
        }
    }

    /// Initializes the allocator in use: the first stage checks that its pages translate in `ctx`, the
    /// second stage marks the memory below `level2_start` as allocated.
    pub fn init(&mut self, ctx: &ActivePagingContext, level2_start: VirtualAddress) -> (r: Result<(), MemoryError>)
        requires
            old(self).is_switched() ==> old(self).second().wf() && !old(self).second().is_initialized()
                && valid_level2_start(level2_start) && (first_backing_page(level2_start) <= LEVEL2_BITS
                || first_backing_page(level2_start) % LEVEL2_BITS as int == 0),
            !old(self).is_switched() ==> old(self).first().wf() && !old(self).first().is_initialized() && ctx.wf(),
        ensures
            r is Ok,
            final(self).is_switched() == old(self).is_switched(),
            old(self).is_switched() ==> {
                &&& final(self).first() == old(self).first()
                &&& final(self).second().wf()
                &&& final(self).second().is_initialized()
                &&& final(self).second().level2_start() == level2_start
                &&& final(self).second().search_from() == first_backing_page(level2_start) + LEVEL1_LEN * LEVEL2_PAGES
                &&& forall|p: int| #[trigger] page_used(final(self).second()@, p) <==> (0 <= p < first_backing_page(level2_start))
                    || (is_backing(level2_start, p) && final(self).second()@[backing_owner(level2_start, p)] is Some)
            },
            !old(self).is_switched() ==> {
                &&& final(self).second() == old(self).second()
                &&& final(self).first().wf()
                &&& final(self).first().is_initialized()
                &&& final(self).first().used() == old(self).first().used()
            },
    {
        if self.switched {
            self.second_stage.init(level2_start);
            Ok(())
        } else {
            self.first_stage.init(ctx)
        }
    }

    /// Deallocates `page` in the allocator in use (the first stage does not unmap it).
    pub fn deallocate<A: FrameAllocator>(&mut self, page: Page, ctx: &mut ActivePagingContext, fa: &mut A)
        requires
            old(self).is_switched() ==> {
                let s = page@ - HH_START as int / FRAME_PAGE_SIZE as int;
                &&& old(self).second().wf()
                &&& old(self).second().is_initialized()
                &&& HH_START as int / FRAME_PAGE_SIZE as int <= page@
                &&& s + 1 <= total_pages()
                &&& page_used(old(self).second()@, s)
                &&& !is_backing(old(self).second().level2_start(), s)
            },
            !old(self).is_switched() ==> old(self).first().wf() && old(self).first().is_initialized() && old(ctx).wf()
                && old(fa).ready() && first_temporary_page() <= page@ < first_temporary_page() + TEMPORARY_PAGES
                && old(self).first().used()[page@ - first_temporary_page()],
        ensures
            final(self).is_switched() == old(self).is_switched(),
            *final(ctx) == *old(ctx),
            final(fa).in_use() == old(fa).in_use(),
            old(self).is_switched() ==> {
                &&& final(self).first() == old(self).first()
                &&& final(self).second().wf()
                &&& final(self).second().is_initialized()
                &&& final(self).second().level2_start() == old(self).second().level2_start()
                &&& final(self).second().search_from() == old(self).second().search_from()
                &&& shrinks_with(
                    old(self).second()@,
                    final(self).second()@,
                    old(self).second().level2_start(),
                    page@ - HH_START as int / FRAME_PAGE_SIZE as int,
                    1,
                )
            },
            !old(self).is_switched() ==> {
                &&& final(self).second() == old(self).second()
                &&& final(self).first().wf()
                &&& final(self).first().is_initialized()
                &&& final(self).first().used() == old(self).first().used().update(page@ - first_temporary_page(), false)
            },
    {
        if self.switched {
            self.second_stage.deallocate(page);
        } else {
            self.first_stage.deallocate(page, false, ctx, fa);
        }
    }

    /// Deallocates the `count` pages from `page` on in the allocator in use (the first stage does not unmap
    /// them).
    pub fn deallocate_contiguous<A: FrameAllocator>(
        &mut self,
        page: Page,
        count: usize,
        ctx: &mut ActivePagingContext,
        fa: &mut A,
    )
        requires
            count > 0,
            old(self).is_switched() ==> {
                let s = page@ - HH_START as int / FRAME_PAGE_SIZE as int;
                &&& old(self).second().wf()
                &&& old(self).second().is_initialized()
                &&& HH_START as int / FRAME_PAGE_SIZE as int <= page@
                &&& s + count <= total_pages()
                &&& forall|p: int| s <= p < s + count ==> #[trigger] page_used(old(self).second()@, p)
                    && !is_backing(old(self).second().level2_start(), p)
            },
            !old(self).is_switched() ==> old(self).first().wf() && old(self).first().is_initialized() && old(ctx).wf()
                && old(fa).ready() && first_temporary_page() <= page@ && page@ + count <= first_temporary_page()
                + TEMPORARY_PAGES && forall|i: int| page@ - first_temporary_page() <= i < page@ - first_temporary_page() + count
                ==> #[trigger] old(self).first().used()[i],
        ensures
            final(self).is_switched() == old(self).is_switched(),
            *final(ctx) == *old(ctx),
            final(fa).in_use() == old(fa).in_use(),
            old(self).is_switched() ==> {
                &&& final(self).first() == old(self).first()
                &&& final(self).second().wf()
                &&& final(self).second().is_initialized()
                &&& final(self).second().level2_start() == old(self).second().level2_start()
                &&& final(self).second().search_from() == old(self).second().search_from()
                &&& shrinks_with(
                    old(self).second()@,
                    final(self).second()@,
                    old(self).second().level2_start(),
                    page@ - HH_START as int / FRAME_PAGE_SIZE as int,
                    count as int,
                )
            },
            !old(self).is_switched() ==> {
                let first = page@ - first_temporary_page();
                &&& final(self).second() == old(self).second()
                &&& final(self).first().wf()
                &&& final(self).first().is_initialized()
                &&& final(self).first().used() == Seq::new(
                    TEMPORARY_PAGES as nat,
                    |i: int| if first <= i < first + count { false } else { old(self).first().used()[i] },
                )
            },
    {
        if self.switched {
            self.second_stage.deallocate_contiguous(page, count);
        } else {
            self.first_stage.deallocate_contiguous(page, count, false, ctx, fa);
        }
    }

    /// Allocates `count` contiguous pages from the second stage allocator; the first stage cannot.
    pub fn allocate_contiguous(&mut self, count: usize) -> (r: Result<Page, MemoryError>)
        requires
            old(self).is_switched(),
            old(self).second().wf(),
            old(self).second().is_initialized(),
            count > 0,
            !old(self).second().block_at_missing_bitmap_end(count as int),
        ensures
            final(self).is_switched(),
            final(self).first() == old(self).first(),
            final(self).second().wf(),
            ({
                let v = old(self).second()@;
                let from = old(self).second().search_from();
                &&& (r is Ok <==> fits_somewhere(v, from, count as int))
                &&& r matches Ok(page) ==> is_first_fit(v, from, count as int, page@ - HH_START as int / FRAME_PAGE_SIZE as int)
                    && grows_with(
                    v,
                    final(self).second()@,
                    old(self).second().level2_start(),
                    page@ - HH_START as int / FRAME_PAGE_SIZE as int,
                    count as int,
                )
                &&& r is Err ==> r == Err::<Page, MemoryError>(MemoryError::NotEnoughVirMemory) && final(self).second()@ == v
            }),
    {
        self.second_stage.allocate_contiguous(count)
    }
}

} // verus!
