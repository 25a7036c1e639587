use rsos::graphics::framebuffer::{FrameBufferColor, FrameBufferError, Framebuffer};
use rsos::graphics::graphics_renderer::{GraphicsRenderer, GraphicsRendererType};
use rsos::graphics::klogger::{KLogger, KLoggerError};
use rsos::graphics::klogger::font_renderer::{FontError, FontRenderer};
use rsos::graphics::klogger::painter::KLoggerPainter;
use rsos::graphics::klogger::psf::{Psf, PsfError};
use rsos::logger::LOGGER;
use rsos::memory::{MemoryError, ProhibitedMemoryRange};
use rsos::memory::frames::bitmap_frame_allocator::BitmapFrameAllocator;
use rsos::memory::pages::paging::ActivePagingContext;
use rsos::memory::pages::simple_page_allocator::BitmapPageAllocator;
use rsos::multiboot2::MbInfo;
use rsos::multiboot2::framebuffer_info::{ColorInfoDirectRGBColor, FrameBufferInfoError};
use rsos::multiboot2::memory_map::{MemoryMapEntries, MemoryMapEntry};

/// A PSF2 font of 128 glyphs, 8 pixels wide and 2 high: every printable character other than the space
/// has its top left pixel set, everything else is blank.
fn font() -> Vec<u8> {
    let mut v = Vec::new();
    for x in [0x864ab572u32, 0, 32, 0, 128, 2, 2, 8] {
        v.extend_from_slice(&x.to_le_bytes());
    }
    for c in 0..128u32 {
        if c > 0x20 && c < 0x7f {
            v.extend_from_slice(&[0b1000_0000, 0]);
        } else {
            v.extend_from_slice(&[0, 0]);
        }
    }
    v
}

/// A 16 column (128 pixel) wide, 4 pixel high screen with 4 byte pixels: blue, green, red.
fn screen() -> Framebuffer {
    Framebuffer {
        phy_addr: 0,
        vir_addr: 0,
        pitch: 512,
        width: 128,
        height: 4,
        bpp: 32,
        pixel_width: 4,
        color_info: ColorInfoDirectRGBColor {
            red_field_position: 16,
            red_mask_size: 8,
            green_field_position: 8,
            green_mask_size: 8,
            blue_field_position: 0,
            blue_mask_size: 8,
        },
        screen: vec![0u8; 512 * 4],
    }
}

fn pixel(fb: &Framebuffer, x: usize, y: usize) -> (u8, u8, u8) {
    let o = x * 4 + y * 512;
    (fb.screen[o + 2], fb.screen[o + 1], fb.screen[o])
}

const RED: (u8, u8, u8) = (255, 0, 0);
const WHITE: (u8, u8, u8) = (255, 255, 255);
const BLACK: (u8, u8, u8) = (0, 0, 0);

#[test]
fn color_new() {
    let c = FrameBufferColor::new(1, 2, 3);
    assert_eq!((c.r, c.g, c.b), (1, 2, 3));
}

#[test]
fn put_pixel_writes_the_color_bytes() {
    let mut fb = screen();
    KLoggerPainter::put_pixel(&mut fb, 3, 2, FrameBufferColor::new(10, 20, 30));
    assert_eq!(pixel(&fb, 3, 2), (10, 20, 30));
    assert_eq!(fb.screen[3 * 4 + 2 * 512 + 3], 0);
    assert_eq!(pixel(&fb, 2, 2), BLACK);
}

#[test]
fn psf_parse_errors() {
    let bad = vec![0u8; 40];
    assert!(matches!(Psf::from_bytes(&bad), Err((PsfError::WrongMagicValue, PsfError::WrongMagicValue))));
    let short = vec![0x36u8];
    assert!(matches!(Psf::from_bytes(&short), Err((PsfError::MalformedHeader, PsfError::MalformedHeader))));
    let mut v2 = font();
    v2[4] = 1;
    assert!(matches!(Psf::from_bytes(&v2), Err((PsfError::WrongMagicValue, PsfError::UnsupportedVersion))));
}

#[test]
fn psf2_glyphs() {
    let bytes = font();
    let f = Psf::from_bytes(&bytes).ok().unwrap();
    assert_eq!(f.pixel_width(), 8);
    assert_eq!(f.pixel_height(), 2);
    assert_eq!(f.get_glyph('A'), Some(&[0b1000_0000u8, 0][..]));
    assert_eq!(f.get_glyph(' '), Some(&[0u8, 0][..]));
    // no unicode table: characters beyond ASCII have no glyph
    assert_eq!(f.get_glyph('é'), None);
}

#[test]
fn psf1_font() {
    let mut v = vec![0x36u8, 0x04, 0, 3];
    for i in 0..256u32 {
        v.extend_from_slice(&[i as u8, 0, 0xff]);
    }
    let f = Psf::from_bytes(&v).ok().unwrap();
    assert_eq!(f.pixel_width(), 8);
    assert_eq!(f.pixel_height(), 3);
    assert_eq!(f.get_glyph('B'), Some(&[0x42u8, 0, 0xff][..]));
}

#[test]
fn font_renderer_rejects_bad_font() {
    let bad = vec![0u8; 4];
    assert!(matches!(FontRenderer::new(FrameBufferColor::new(1, 1, 1), &bad), Err(FontError::PsfErrs(_))));
}

#[test]
fn write_str_draws_at_the_cursor() {
    let bytes = font();
    let mut fr = FontRenderer::new(FrameBufferColor::new(255, 0, 0), &bytes).ok().unwrap();
    let mut fb = screen();
    fr.write_str(&mut fb, "AB");
    assert_eq!(pixel(&fb, 0, 0), RED);
    assert_eq!(pixel(&fb, 8, 0), RED);
    assert_eq!(pixel(&fb, 1, 0), BLACK);
    assert_eq!(pixel(&fb, 16, 0), BLACK);
    // the rows of the cursor are pixel lines
    fr.write_str(&mut fb, "\nC");
    assert_eq!(pixel(&fb, 0, 1), RED);
}

#[test]
fn write_str_wraps_lines() {
    let bytes = font();
    let mut fr = FontRenderer::new(FrameBufferColor::new(255, 0, 0), &bytes).ok().unwrap();
    let mut fb = screen();
    fr.write_str(&mut fb, "0123456789abcdefX");
    assert_eq!(pixel(&fb, 15 * 8, 0), RED);
    assert_eq!(pixel(&fb, 0, 1), RED);
}

#[test]
fn write_str_tab_and_carriage_return() {
    let bytes = font();
    let mut fr = FontRenderer::new(FrameBufferColor::new(255, 0, 0), &bytes).ok().unwrap();
    let mut fb = screen();
    // a tab writes spaces up to the next multiple of 4 columns
    fr.write_str(&mut fb, "\tA");
    assert_eq!(pixel(&fb, 0, 0), BLACK);
    assert_eq!(pixel(&fb, 4 * 8, 0), RED);
    fr.write_str(&mut fb, "BB\rX");
    assert_eq!(pixel(&fb, 5 * 8, 0), RED);
    assert_eq!(pixel(&fb, 6 * 8, 0), RED);
    assert_eq!(pixel(&fb, 0, 0), RED);
    // on the next row, a tab from column 0 reaches column 4 and one from column 5 reaches column 8
    fr.write_str(&mut fb, "\n\tZ\tW");
    assert_eq!(pixel(&fb, 4 * 8, 1), RED);
    assert_eq!(pixel(&fb, 8 * 8, 1), RED);
    fr.set_color(FrameBufferColor::new(255, 255, 255));
    fr.write_str(&mut fb, "\rY");
    assert_eq!(pixel(&fb, 0, 1), WHITE);
    assert_eq!(fr.color(), FrameBufferColor::new(255, 255, 255));
}

#[test]
fn write_str_scrolls() {
    let bytes = font();
    let mut fr = FontRenderer::new(FrameBufferColor::new(255, 0, 0), &bytes).ok().unwrap();
    let mut fb = screen();
    fr.write_str(&mut fb, "\nA\n\n\n");
    assert_eq!(pixel(&fb, 0, 1), RED);
    // the cursor is past the last line: the screen moves up one line
    fr.write_str(&mut fb, "B");
    assert_eq!(pixel(&fb, 0, 0), RED);
    assert_eq!(pixel(&fb, 0, 1), BLACK);
    assert_eq!(pixel(&fb, 0, 3), RED);
}

#[test]
fn klogger_init_and_log() {
    let bytes = font();
    let mut logger = KLogger::new();
    assert!(logger.init(&bytes).is_ok());
    let mut fb = screen();
    logger.log(&mut fb, "A");
    assert_eq!(pixel(&fb, 0, 0), WHITE);
    logger.log_colored(&mut fb, 255, 0, 0, "A");
    assert_eq!(pixel(&fb, 8, 0), RED);
    // the color went back to white
    logger.log(&mut fb, "A");
    assert_eq!(pixel(&fb, 16, 0), WHITE);
    logger.set_color(0, 0, 255);
    logger.log(&mut fb, "A");
    assert_eq!(pixel(&fb, 24, 0), (0, 0, 255));
}

#[test]
fn klogger_init_with_bad_font() {
    let bad = vec![1u8; 8];
    let mut logger = KLogger::new();
    assert!(matches!(logger.init(&bad), Err(KLoggerError::FontErr(FontError::PsfErrs(_)))));
}

#[test]
fn logger_status_lines() {
    let bytes = font();
    let mut logger = KLogger::new();
    assert!(logger.init(&bytes).is_ok());
    let mut fb = screen();
    LOGGER::ok(&mut logger, &mut fb, "hi");
    // "[  OK  ] hi": brackets and message in white, the label in green
    assert_eq!(pixel(&fb, 0, 0), WHITE);
    assert_eq!(pixel(&fb, 8, 0), BLACK);
    assert_eq!(pixel(&fb, 24, 0), (0, 255, 0));
    assert_eq!(pixel(&fb, 32, 0), (0, 255, 0));
    assert_eq!(pixel(&fb, 56, 0), WHITE);
    assert_eq!(pixel(&fb, 72, 0), WHITE);
    assert_eq!(pixel(&fb, 80, 0), WHITE);
    LOGGER::failed(&mut logger, &mut fb, "x");
    assert_eq!(pixel(&fb, 8, 1), RED);
    LOGGER::warn(&mut logger, &mut fb, "y");
    assert_eq!(pixel(&fb, 16, 2), (255, 255, 0));
}

// ---- setting up a framebuffer from the boot information ----

fn push_u32(v: &mut Vec<u8>, x: u32) {
    v.extend_from_slice(&x.to_le_bytes());
}

fn boot_info(fb_type: u8, mask_size: u8, with_tag: bool) -> Vec<u8> {
    let mut v = Vec::new();
    push_u32(&mut v, 0);
    push_u32(&mut v, 0);
    if with_tag {
        push_u32(&mut v, 8);
        push_u32(&mut v, 38);
        v.extend_from_slice(&0xfd00_0000u64.to_le_bytes());
        push_u32(&mut v, 4096);
        push_u32(&mut v, 1024);
        push_u32(&mut v, 4);
        v.push(32);
        v.push(fb_type);
        v.extend_from_slice(&[0, 0]);
        v.extend_from_slice(&[16, mask_size, 8, mask_size, 0, mask_size]);
        while v.len() % 8 != 0 {
            v.push(0);
        }
    }
    push_u32(&mut v, 0);
    push_u32(&mut v, 8);
    let total = v.len() as u32;
    v[0..4].copy_from_slice(&total.to_le_bytes());
    v
}

fn entries() -> MemoryMapEntries {
    MemoryMapEntries(vec![MemoryMapEntry { base_addr: 0x10_0000, length: 0x100_0000, entry_type: 1, reserved: 0 }])
}

fn prohibited() -> Vec<ProhibitedMemoryRange> {
    vec![ProhibitedMemoryRange::new(0x10_0000, 0x1f_ffff)]
}

fn framebuffer_from(b: &[u8]) -> Result<Framebuffer, FrameBufferError> {
    let info = MbInfo::new(0x1000, b).ok().unwrap();
    let e = entries();
    let p = prohibited();
    let (start, bytes) = BitmapFrameAllocator::bitmap_location(&e, &p).ok().unwrap();
    let mut mem = vec![0u8; bytes];
    let mut fa = BitmapFrameAllocator::new();
    assert!(fa.init(&e, &p, start, &mut mem[..]).is_ok());
    let mut ctx = ActivePagingContext::new();
    let mut pa = BitmapPageAllocator::new();
    pa.init(0xffff_8000_0010_0000);
    let r = Framebuffer::new(&info, &mut pa, &mut ctx, &mut fa);
    if let Ok(fb) = &r {
        assert!(matches!(ctx.translate(fb.vir_addr), Ok(Some(0xfd00_0000))));
        assert!(matches!(ctx.translate(fb.vir_addr + 3 * 4096 + 5), Ok(Some(0xfd00_3005))));
        assert!(matches!(ctx.translate(fb.vir_addr + 4 * 4096), Ok(None)));
    }
    r
}

#[test]
fn framebuffer_is_mapped() {
    let fb = framebuffer_from(&boot_info(1, 8, true)).ok().unwrap();
    assert_eq!(fb.phy_addr, 0xfd00_0000);
    assert_eq!(fb.width, 1024);
    assert_eq!(fb.height, 4);
    assert_eq!(fb.pixel_width, 4);
    assert_eq!(fb.screen.len(), 4096 * 4);
    assert_eq!(fb.vir_addr % 4096, 0);
}

#[test]
fn framebuffer_errors() {
    assert!(matches!(framebuffer_from(&boot_info(1, 8, false)), Err(FrameBufferError::FrameBufferTagDoesNotExist)));
    assert!(matches!(framebuffer_from(&boot_info(0, 8, true)), Err(FrameBufferError::WrongFrameBufferType)));
    assert!(matches!(
        framebuffer_from(&boot_info(7, 8, true)),
        Err(FrameBufferError::FrameBufferInfoErr(FrameBufferInfoError::UnknownFrameBufferType))
    ));
    assert!(matches!(framebuffer_from(&boot_info(1, 5, true)), Err(FrameBufferError::Non8BitFramebuffer)));
}

#[test]
fn graphics_renderer_init() {
    let b = boot_info(1, 8, true);
    let info = MbInfo::new(0x1000, &b).ok().unwrap();
    let e = entries();
    let p = prohibited();
    let (start, bytes) = BitmapFrameAllocator::bitmap_location(&e, &p).ok().unwrap();
    let mut mem = vec![0u8; bytes];
    let mut fa = BitmapFrameAllocator::new();
    assert!(fa.init(&e, &p, start, &mut mem[..]).is_ok());
    let mut ctx = ActivePagingContext::new();
    let mut pa = BitmapPageAllocator::new();
    pa.init(0xffff_8000_0010_0000);
    let mut gr = GraphicsRenderer::new();
    assert!(gr.init(GraphicsRendererType::Text, &info, &mut pa, &mut ctx, &mut fa).is_ok());
    let none = boot_info(1, 8, false);
    let info2 = MbInfo::new(0x1000, &none).ok().unwrap();
    let mut gr2 = GraphicsRenderer::new();
    let r = gr2.init(GraphicsRendererType::Text, &info2, &mut pa, &mut ctx, &mut fa);
    assert!(matches!(r, Err(FrameBufferError::FrameBufferTagDoesNotExist)));
    let _unused = MemoryError::NotEnoughVirMemory;
}
