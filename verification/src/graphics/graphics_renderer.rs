//! A renderer that owns the framebuffer, for the kind of output it draws.
use vstd::prelude::*;
use crate::graphics::framebuffer::{fb_check_error, fb_mappable, fb_page_count, fb_supported, FrameBufferError, Framebuffer};
use crate::memory::frames::FrameAllocator;
use crate::memory::pages::paging::ActivePagingContext;
use crate::memory::pages::simple_page_allocator::BitmapPageAllocator;
use crate::multiboot2::{fb_tag, MbInfo};

verus! {

/// What the renderer draws.
#[derive(PartialEq, Eq, Structural, Clone, Copy, Debug)]
pub enum GraphicsRendererType {
    Text,
}

struct GraphicsRendererInner {
    fb: Framebuffer,
    typ: GraphicsRendererType,
}

/// The renderer: nothing until it is initialized.
pub struct GraphicsRenderer(Option<GraphicsRendererInner>);

impl GraphicsRenderer {
    /// The renderer holds a framebuffer.
    pub closed spec fn is_initialized(&self) -> bool {
        self.0 is Some
    }

    /// The kind of output, once initialized.
    pub closed spec fn renderer_type(&self) -> GraphicsRendererType {
        self.0->0.typ
    }

    /// A renderer to be initialized.
    pub fn new() -> (r: Self)
        ensures
            !r.is_initialized(),
    {
        GraphicsRenderer(None)
    }

    /// Sets up the framebuffer that the boot information describes (see [Framebuffer::new]) and keeps it.
    pub fn init<A: FrameAllocator>(
        &mut self,
        typ: GraphicsRendererType,
        mb_info: &MbInfo,
        pa: &mut BitmapPageAllocator,
        ctx: &mut ActivePagingContext,
        fa: &mut A,
    ) -> (r: Result<(), FrameBufferError>)
        requires
            !old(self).is_initialized(),
            old(pa).wf(),
            old(pa).is_initialized(),
            old(ctx).wf(),
            old(fa).ready(),
            match fb_tag(mb_info.tags()) {
                Some(i) => fb_supported(i) ==> fb_mappable(i) && !old(pa).block_at_missing_bitmap_end(fb_page_count(i)),
                None => true,
            },
        ensures
            final(pa).wf(),
            final(ctx).wf(),
            final(fa).ready(),
            final(self).is_initialized() <==> r is Ok,
            r is Ok ==> final(self).renderer_type() == typ,
            fb_check_error(fb_tag(mb_info.tags())) matches Some(e) ==> r matches Err(e2) && e2 == e,
    {
        let fb = Framebuffer::new(mb_info, pa, ctx, fa)?;
        self.0 = Some(GraphicsRendererInner { fb, typ });
        Ok(())
    }
}

} // verus!
