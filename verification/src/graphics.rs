//! Text output on a framebuffer: colors, the kernel logger and PC Screen Fonts.
use vstd::prelude::*;

pub mod framebuffer;
pub mod graphics_renderer;
pub mod klogger;

verus! {
}
