//! Status lines on the kernel logger: `[  OK  ]`, `[ WARN ]` and `[FAILED]` before a message.
use vstd::prelude::*;
use crate::graphics::framebuffer::{FrameBufferColor, Framebuffer};
use crate::graphics::klogger::KLogger;
use crate::graphics::klogger::font_renderer::{glyph_fits, written, FontRenderer};
use crate::graphics::klogger::painter::same_geometry;

verus! {

/// The color of plain text.
pub open spec fn white() -> FrameBufferColor {
    FrameBufferColor { r: 255, g: 255, b: 255 }
}

/// The renderer `f` can write `s` on `fb`, and each part of a status line too.
pub open spec fn status_writable(f: FontRenderer, fb: Framebuffer, label: Seq<char>, msg: Seq<char>) -> bool {
    &&& f.can_write(fb, seq!['[', ']', ' ', '\n'])
    &&& f.can_write(fb, label)
    &&& f.can_write(fb, msg)
}

/// The cursor and screen after the status line `[label] msg` and a newline: the brackets, the message and
/// the newline in white, the label in `c`.
pub open spec fn status_line(
    f: FontRenderer,
    fb: Framebuffer,
    c: FrameBufferColor,
    label: Seq<char>,
    msg: Seq<char>,
) -> (int, int, Seq<u8>) {
    let g = fb.geometry();
    let m = f.font_model();
    let st1 = written(g, m, white(), (f.column(), f.row(), fb.screen@), seq!['[']);
    let st2 = written(g, m, c, st1, label);
    written(g, m, white(), st2, seq![']', ' '] + msg + seq!['\n'])
}

/// Writes status lines.
pub struct LOGGER;

impl LOGGER {
    /// Writes `[label] msg` and a newline, the label in color `(r, g, b)`.
    fn status(logger: &mut KLogger, fb: &mut Framebuffer, r: u8, g: u8, b: u8, label: &str, msg: &str)
        requires
            old(logger).renderer() matches Some(f) && status_writable(f, *old(fb), label@, msg@),
        ensures
            same_geometry(*final(fb), *old(fb)),
            final(fb).wf(),
            final(logger).renderer() matches Some(f2) && f2.wf() && f2.font_model() == old(logger).renderer()->0.font_model()
                && f2.text_color() == old(logger).renderer()->0.text_color() && (f2.column(), f2.row(), final(fb).screen@)
                == status_line(old(logger).renderer()->0, *old(fb), FrameBufferColor { r, g, b }, label@, msg@),
    {
        let ghost f0 = logger.renderer()->0;
        let ghost fb0 = *fb;
        let ghost gm = fb.geometry();
        let ghost m = f0.font_model();
        proof {
            reveal_strlit("[");
            reveal_strlit("] ");
            reveal_strlit("\n");
            assert forall|i: int| 0 <= i < 1 implies glyph_fits(m, #[trigger] "["@[i]) by {
                assert(seq!['[', ']', ' ', '\n'][0] == '[');
            }
            assert forall|i: int| 0 <= i < 2 implies glyph_fits(m, #[trigger] "] "@[i]) by {
                assert(seq!['[', ']', ' ', '\n'][1] == ']');
                assert(seq!['[', ']', ' ', '\n'][2] == ' ');
            }
            assert forall|i: int| 0 <= i < 1 implies glyph_fits(m, #[trigger] "\n"@[i]) by {
                assert(seq!['[', ']', ' ', '\n'][3] == '\n');
            }
            assert(!"["@.contains('\t'));
            assert(!"] "@.contains('\t'));
            assert(!"\n"@.contains('\t'));
        }
        logger.log_colored(fb, 255, 255, 255, "[");
        logger.log_colored(fb, r, g, b, label);
        logger.log_colored(fb, 255, 255, 255, "] ");
        logger.log_colored(fb, 255, 255, 255, msg);
        logger.log_colored(fb, 255, 255, 255, "\n");
        proof {
            let st1 = written(gm, m, white(), (f0.column(), f0.row(), fb0.screen@), seq!['[']);
            let st2 = written(gm, m, FrameBufferColor { r, g, b }, st1, label@);
            assert("["@ =~= seq!['[']);
            assert("] "@ =~= seq![']', ' ']);
            assert("\n"@ =~= seq!['\n']);
            crate::graphics::klogger::font_renderer::law_written_concat(gm, m, white(), st2, seq![']', ' '], msg@);
            crate::graphics::klogger::font_renderer::law_written_concat(gm, m, white(), st2, seq![']', ' '] + msg@, seq!['\n']);
        }
    }

    /// Writes `[FAILED] msg`, with `FAILED` in red.
    pub fn failed(logger: &mut KLogger, fb: &mut Framebuffer, msg: &str)
        requires
            old(logger).renderer() matches Some(f) && status_writable(f, *old(fb), "FAILED"@, msg@),
        ensures
            same_geometry(*final(fb), *old(fb)),
            final(fb).wf(),
            final(logger).renderer() matches Some(f2) && f2.wf() && f2.font_model() == old(logger).renderer()->0.font_model()
                && f2.text_color() == old(logger).renderer()->0.text_color() && (f2.column(), f2.row(), final(fb).screen@)
                == status_line(old(logger).renderer()->0, *old(fb), FrameBufferColor { r: 255, g: 0, b: 0 }, "FAILED"@, msg@),
    {
        // [FAILED]
        Self::status(logger, fb, 255, 0, 0, "FAILED", msg);
    }

    /// Writes `[ WARN ] msg`, with ` WARN ` in yellow.
    pub fn warn(logger: &mut KLogger, fb: &mut Framebuffer, msg: &str)
        requires
            old(logger).renderer() matches Some(f) && status_writable(f, *old(fb), " WARN "@, msg@),
        ensures
            same_geometry(*final(fb), *old(fb)),
            final(fb).wf(),
            final(logger).renderer() matches Some(f2) && f2.wf() && f2.font_model() == old(logger).renderer()->0.font_model()
                && f2.text_color() == old(logger).renderer()->0.text_color() && (f2.column(), f2.row(), final(fb).screen@)
                == status_line(old(logger).renderer()->0, *old(fb), FrameBufferColor { r: 255, g: 255, b: 0 }, " WARN "@, msg@),
    {
        // [ WARN ]
        Self::status(logger, fb, 255, 255, 0, " WARN ", msg);
    }

    /// Writes `[  OK  ] msg`, with `  OK  ` in green.
    pub fn ok(logger: &mut KLogger, fb: &mut Framebuffer, msg: &str)
        requires
            old(logger).renderer() matches Some(f) && status_writable(f, *old(fb), "  OK  "@, msg@),
        ensures
            same_geometry(*final(fb), *old(fb)),
            final(fb).wf(),
            final(logger).renderer() matches Some(f2) && f2.wf() && f2.font_model() == old(logger).renderer()->0.font_model()
                && f2.text_color() == old(logger).renderer()->0.text_color() && (f2.column(), f2.row(), final(fb).screen@)
                == status_line(old(logger).renderer()->0, *old(fb), FrameBufferColor { r: 0, g: 255, b: 0 }, "  OK  "@, msg@),
    {
        // [  OK  ]
        Self::status(logger, fb, 0, 255, 0, "  OK  ", msg);
    }
}

} // verus!
