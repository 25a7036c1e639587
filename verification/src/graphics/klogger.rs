//! The kernel logger: a font renderer over a framebuffer.
use vstd::prelude::*;
use crate::graphics::framebuffer::{FrameBufferColor, FrameBufferError, Framebuffer};
use crate::graphics::klogger::font_renderer::{written, FontError, FontRenderer};
use crate::graphics::klogger::painter::same_geometry;
use crate::graphics::klogger::psf::psf_parse;

pub mod font_renderer;
pub mod painter;
pub mod psf;

verus! {

/// A simple kernel logger: text on the framebuffer, once a font is set.
pub struct KLogger<'a>(Option<FontRenderer<'a>>);

/// Why the logger cannot be set up.
#[derive(Debug)]
pub enum KLoggerError {
    FrameBufferErr(FrameBufferError),
    FontErr(FontError),
}

/// What writing `s` with renderer `f` on `fb0` leaves: renderer `f2` and screen `scr`.
pub open spec fn logged(f: FontRenderer, f2: FontRenderer, fb0: Framebuffer, scr: Seq<u8>, c: FrameBufferColor, s: Seq<char>) -> bool {
    &&& f2.wf()
    &&& f2.font_model() == f.font_model()
    &&& (f2.column(), f2.row(), scr) == written(fb0.geometry(), f.font_model(), c, (f.column(), f.row(), fb0.screen@), s)
}

impl<'a> KLogger<'a> {
    /// The renderer, once the logger is initialized.
    pub closed spec fn renderer(&self) -> Option<FontRenderer<'a>> {
        self.0
    }

    /// Creates a new **KLogger** that needs to be [initialized](KLogger::init()).
    pub fn new() -> (r: Self)
        ensures
            r.renderer() is None,
    {
        KLogger(None)
    }

    /// Initializes this simple Kernel logger with the font in `font_bytes`.
    ///
    /// Default color is pure white.
    pub fn init(&mut self, font_bytes: &'a [u8]) -> (r: Result<(), KLoggerError>)
        requires
            old(self).renderer() is None,
        ensures
            match psf_parse(font_bytes@) {
                Ok(m) => r is Ok && (final(self).renderer() matches Some(f) && f.wf() && f.font_model() == m
                    && f.text_color() == (FrameBufferColor { r: 255, g: 255, b: 255 }) && f.column() == 0 && f.row() == 0),
                Err(e) => r matches Err(KLoggerError::FontErr(FontError::PsfErrs(e2))) && e2 == e
                    && final(self).renderer() is None,
            },
    {
        match FontRenderer::new(FrameBufferColor::new(255, 255, 255), font_bytes) {
            Ok(fr) => {
                self.0 = Some(fr);
                Ok(())
            },
            Err(e) => Err(KLoggerError::FontErr(e)),
        }
    }

    /// Print `s` to the screen.
    pub fn log(&mut self, fb: &mut Framebuffer, s: &str)
        requires
            old(self).renderer() matches Some(f) && f.can_write(*old(fb), s@),
        ensures
            same_geometry(*final(fb), *old(fb)),
            final(fb).wf(),
            final(self).renderer() matches Some(f2) && logged(old(self).renderer()->0, f2, *old(fb), final(fb).screen@,
                old(self).renderer()->0.text_color(), s@) && f2.text_color() == old(self).renderer()->0.text_color(),
    {
        match &mut self.0 {
            Some(fr) => fr.write_str(fb, s),
            None => {},
        }
    }

    /// Print `s` to the screen in color `(r, g, b)`; the text color stays what it was.
    pub fn log_colored(&mut self, fb: &mut Framebuffer, r: u8, g: u8, b: u8, s: &str)
        requires
            old(self).renderer() matches Some(f) && f.can_write(*old(fb), s@),
        ensures
            same_geometry(*final(fb), *old(fb)),
            final(fb).wf(),
            final(self).renderer() matches Some(f2) && logged(old(self).renderer()->0, f2, *old(fb), final(fb).screen@,
                FrameBufferColor { r, g, b }, s@) && f2.text_color() == old(self).renderer()->0.text_color(),
    {
        match &mut self.0 {
            Some(fr) => {
                let original_color = fr.color();
                fr.set_color(FrameBufferColor::new(r, g, b));
                fr.write_str(fb, s);
                fr.set_color(original_color);
            },
            None => {},
        }
    }

    /// Set the text color.
    pub fn set_color(&mut self, r: u8, g: u8, b: u8)
        requires
            old(self).renderer() is Some,
        ensures
            final(self).renderer() matches Some(f2) && f2.text_color() == (FrameBufferColor { r, g, b })
                && f2.font_model() == old(self).renderer()->0.font_model() && f2.column() == old(self).renderer()->0.column()
                && f2.row() == old(self).renderer()->0.row() && f2.wf() == old(self).renderer()->0.wf(),
    {
        match &mut self.0 {
            Some(fr) => fr.set_color(FrameBufferColor::new(r, g, b)),
            None => {},
        }
    }
}

} // verus!
