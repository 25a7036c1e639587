//! Writing one pixel of the framebuffer.
use vstd::prelude::*;
use crate::graphics::framebuffer::{FrameBufferColor, Framebuffer, ScreenGeometry};

verus! {

/// Paints pixels on the framebuffer.
pub struct KLoggerPainter;

/// The offset in the screen of the first byte of pixel `(x, y)`.
pub open spec fn pixel_offset(g: ScreenGeometry, x: int, y: int) -> int {
    x * g.pixel_width + y * g.pitch
}

/// The three color bytes of pixel `(x, y)` lie in a screen of `len` bytes.
pub open spec fn pixel_in_screen(g: ScreenGeometry, len: int, x: int, y: int) -> bool {
    let o = pixel_offset(g, x, y);
    &&& o + g.color_info.red_field_position / 8 < len
    &&& o + g.color_info.green_field_position / 8 < len
    &&& o + g.color_info.blue_field_position / 8 < len
}

/// The screen `s` with pixel `(x, y)` set to `c`: red, then green, then blue byte.
pub open spec fn painted(g: ScreenGeometry, s: Seq<u8>, x: int, y: int, c: FrameBufferColor) -> Seq<u8> {
    let o = pixel_offset(g, x, y);
    s.update(o + g.color_info.red_field_position / 8, c.r).update(
        o + g.color_info.green_field_position / 8,
        c.g,
    ).update(o + g.color_info.blue_field_position / 8, c.b)
}

/// `a` and `b` describe the same framebuffer, whatever their screens hold.
pub open spec fn same_geometry(a: Framebuffer, b: Framebuffer) -> bool {
    &&& a.phy_addr == b.phy_addr
    &&& a.vir_addr == b.vir_addr
    &&& a.pitch == b.pitch
    &&& a.width == b.width
    &&& a.height == b.height
    &&& a.bpp == b.bpp
    &&& a.pixel_width == b.pixel_width
    &&& a.color_info == b.color_info
}

impl KLoggerPainter {
    /// Sets pixel `(x, y)` of the screen to `color`.
    pub fn put_pixel(fb: &mut Framebuffer, x: u32, y: u32, color: FrameBufferColor)
        requires
            pixel_in_screen(old(fb).geometry(), old(fb).screen@.len() as int, x as int, y as int),
        ensures
            same_geometry(*final(fb), *old(fb)),
            final(fb).screen@ == painted(old(fb).geometry(), old(fb).screen@, x as int, y as int, color),
    {
        let len = fb.screen.len();
        proof {
            assert(y * fb.pitch >= 0) by (nonlinear_arith);
            assert(x * fb.pixel_width >= 0) by (nonlinear_arith);
            assert(x * fb.pixel_width < len && y * fb.pitch < len);
            assert(pixel_offset(fb.geometry(), x as int, y as int) == x * fb.pixel_width + y * fb.pitch);
        }
        let a: usize = x as usize * fb.pixel_width as usize;
        let b: usize = y as usize * fb.pitch as usize;
        let pixel: usize = a + b;
        let r_at: usize = pixel + (fb.color_info.red_field_position / 8) as usize;
        fb.screen.set(r_at, color.r);
        let g_at: usize = pixel + (fb.color_info.green_field_position / 8) as usize;
        fb.screen.set(g_at, color.g);
        let b_at: usize = pixel + (fb.color_info.blue_field_position / 8) as usize;
        fb.screen.set(b_at, color.b);
    }
}

} // verus!
