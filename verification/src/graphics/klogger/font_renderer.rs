//! Drawing text on the framebuffer with a PC Screen Font: a cursor of columns and rows, line wrapping,
//! scrolling and tabs.
use vstd::prelude::*;
use crate::graphics::framebuffer::{FrameBufferColor, Framebuffer, ScreenGeometry};
use crate::graphics::klogger::painter::{painted, pixel_in_screen, same_geometry, KLoggerPainter};
use crate::graphics::klogger::psf::{psf_glyph, psf_parse, Psf, PsfError, PsfModel};

verus! {

broadcast use {vstd::string::axiom_spec_iter, vstd::string::next_postcondition};

/// How many columns a tab reaches to.
pub const TAB_SIZE: u64 = 4;

/// The width of a glyph of `m` in pixels.
pub open spec fn font_width(m: PsfModel) -> int {
    match m {
        PsfModel::Type1(_) => 8,
        PsfModel::Type2(f) => f.width as int,
    }
}

/// The height of a glyph of `m` in pixels.
pub open spec fn font_height(m: PsfModel) -> int {
    match m {
        PsfModel::Type1(f) => f.bytesperglyph as int,
        PsfModel::Type2(f) => f.height as int,
    }
}

/// The bytes that one row of a glyph `w` pixels wide takes.
pub open spec fn row_bytes(w: int) -> int {
    (w + 7) / 8
}

/// The glyph of `c` in `m`, if there is one, has a bit for each of its pixels.
pub open spec fn glyph_fits(m: PsfModel, c: char) -> bool {
    psf_glyph(m, c) matches Some(g) ==> g.len() >= font_height(m) * row_bytes(font_width(m))
}

/// Pixel `(xpos, ypos)` of glyph `g`, with `bpr` bytes per row, is set: rows are stored top first,
/// and the highest bit of a byte is the leftmost pixel.
pub open spec fn glyph_bit(g: Seq<u8>, bpr: int, xpos: int, ypos: int) -> bool {
    (g[ypos * bpr + xpos / 8] >> ((7 - xpos % 8) as u8)) & 1u8 != 0u8
}

/// The screen `s` after the first `k` pixels of glyph `g` (`w` pixels wide, row after row) have been
/// drawn at `(x, y)` in color `c`: set pixels are painted where their bytes lie in the screen.
pub open spec fn glyph_drawn_upto(
    g: ScreenGeometry,
    s: Seq<u8>,
    gl: Seq<u8>,
    w: int,
    x: int,
    y: int,
    c: FrameBufferColor,
    k: nat,
) -> Seq<u8>
    decreases k,
{
    if k == 0 {
        s
    } else {
        let prev = glyph_drawn_upto(g, s, gl, w, x, y, c, (k - 1) as nat);
        let xpos = (k - 1) % w;
        let ypos = (k - 1) / w;
        if glyph_bit(gl, row_bytes(w), xpos, ypos) && pixel_in_screen(g, prev.len() as int, x + xpos, y + ypos) {
            painted(g, prev, x + xpos, y + ypos, c)
        } else {
            prev
        }
    }
}

/// The screen `s` after character `chr` of font `m` has been drawn with its top left corner at `(x, y)`:
/// unchanged if the font has no glyph for it.
pub open spec fn char_drawn(g: ScreenGeometry, s: Seq<u8>, m: PsfModel, chr: char, x: int, y: int, c: FrameBufferColor) -> Seq<u8> {
    match psf_glyph(m, chr) {
        Some(gl) => glyph_drawn_upto(g, s, gl, font_width(m), x, y, c, (font_width(m) * font_height(m)) as nat),
        None => s,
    }
}

/// Where pixel `j` of a glyph `w` pixels wide, drawn at `(x, y)`, starts on the screen.
spec fn glyph_px_off(g: ScreenGeometry, x: int, y: int, w: int, j: int) -> int {
    (x + j % w) * g.pixel_width + (y + j / w) * g.pitch
}

/// Pixel `j` of glyph `gl`, `w` pixels wide, is set (rows top first, leftmost pixel in the highest bit).
spec fn glyph_px_set(gl: Seq<u8>, w: int, j: int) -> bool {
    (gl[(j / w) * ((w + 7) / 8) + (j % w) / 8] >> ((7 - (j % w) % 8) as u8)) & 1u8 != 0u8
}

/// A screen where a `w` by `h` glyph at `(x, y)` lies whole, each pixel's three color bytes being
/// distinct bytes of that pixel, and lines not overlapping.
pub open spec fn glyph_area_ok(g: ScreenGeometry, len: int, x: int, y: int, w: int, h: int) -> bool {
    let ci = g.color_info;
    &&& w > 0 && h > 0 && x >= 0 && y >= 0
    &&& ci.red_field_position / 8 < g.pixel_width
    &&& ci.green_field_position / 8 < g.pixel_width
    &&& ci.blue_field_position / 8 < g.pixel_width
    &&& ci.red_field_position / 8 != ci.green_field_position / 8
    &&& ci.red_field_position / 8 != ci.blue_field_position / 8
    &&& ci.green_field_position / 8 != ci.blue_field_position / 8
    &&& x + w <= g.width
    &&& g.width * g.pixel_width <= g.pitch
    &&& (y + h - 1) * g.pitch + (x + w) * g.pixel_width <= len
}

/// Two different pixels of a line no wider than the screen take bytes apart.
proof fn lemma_pixels_apart(g: ScreenGeometry, x1: int, y1: int, x2: int, y2: int)
    requires
        0 <= x1 < g.width,
        0 <= x2 < g.width,
        0 <= y1,
        0 <= y2,
        g.width * g.pixel_width <= g.pitch,
        x1 != x2 || y1 != y2,
    ensures
        x1 * g.pixel_width + y1 * g.pitch + g.pixel_width <= x2 * g.pixel_width + y2 * g.pitch || x2 * g.pixel_width + y2
            * g.pitch + g.pixel_width <= x1 * g.pixel_width + y1 * g.pitch,
{
    let pw = g.pixel_width as int;
    let pitch = g.pitch as int;
    let wd = g.width as int;
    if y1 == y2 {
        if x1 < x2 {
            assert(x1 * pw + pw <= x2 * pw) by (nonlinear_arith)
                requires
                    x1 < x2,
                    pw >= 0,
            ;
        } else {
            assert(x2 * pw + pw <= x1 * pw) by (nonlinear_arith)
                requires
                    x2 < x1,
                    pw >= 0,
            ;
        }
    } else if y1 < y2 {
        assert(x1 * pw + y1 * pitch + pw <= x2 * pw + y2 * pitch) by (nonlinear_arith)
            requires
                y1 < y2,
                0 <= x1 < wd,
                0 <= x2,
                wd * pw <= pitch,
                pw >= 0,
        ;
    } else {
        assert(x2 * pw + y2 * pitch + pw <= x1 * pw + y1 * pitch) by (nonlinear_arith)
            requires
                y2 < y1,
                0 <= x2 < wd,
                0 <= x1,
                wd * pw <= pitch,
                pw >= 0,
        ;
    }
}

/// Where pixel `j` of the glyph lies and that its bytes are on the screen.
proof fn lemma_glyph_px(g: ScreenGeometry, len: int, x: int, y: int, w: int, h: int, j: int)
    requires
        glyph_area_ok(g, len, x, y, w, h),
        0 <= j < w * h,
    ensures
        0 <= j % w < w,
        0 <= j / w < h,
        j == (j / w) * w + j % w,
        glyph_px_off(g, x, y, w, j) >= 0,
        glyph_px_off(g, x, y, w, j) + g.pixel_width <= len,
{
    vstd::arithmetic::div_mod::lemma_fundamental_div_mod(j, w);
    let xp = j % w;
    let yp = j / w;
    assert(yp < h) by {
        if yp >= h {
            assert(w * yp >= w * h) by (nonlinear_arith)
                requires
                    yp >= h,
                    w > 0,
            ;
        }
    }
    assert(yp >= 0) by {
        vstd::arithmetic::div_mod::lemma_div_pos_is_pos(j, w);
    }
    let pw = g.pixel_width as int;
    let pitch = g.pitch as int;
    assert(0 <= (x + xp) * pw + (y + yp) * pitch) by (nonlinear_arith)
        requires
            x + xp >= 0,
            y + yp >= 0,
            pw >= 0,
            pitch >= 0,
    ;
    assert((x + xp) * pw + (y + yp) * pitch + pw <= (y + h - 1) * pitch + (x + w) * pw) by (nonlinear_arith)
        requires
            x + xp + 1 <= x + w,
            y + yp <= y + h - 1,
            pw >= 0,
            pitch >= 0,
    ;
}

/// After the first `k` pixels of the glyph are drawn, each of them that is set has the color `c`
/// in its three bytes, and every other pixel keeps its bytes.
proof fn lemma_glyph_drawn_upto(
    g: ScreenGeometry,
    s: Seq<u8>,
    gl: Seq<u8>,
    w: int,
    h: int,
    x: int,
    y: int,
    c: FrameBufferColor,
    k: nat,
)
    requires
        glyph_area_ok(g, s.len() as int, x, y, w, h),
        gl.len() >= h * ((w + 7) / 8),
        k <= w * h,
    ensures
        glyph_drawn_upto(g, s, gl, w, x, y, c, k).len() == s.len(),
        forall|j: int|
            0 <= j < w * h ==> {
                let d = glyph_drawn_upto(g, s, gl, w, x, y, c, k);
                let o = #[trigger] glyph_px_off(g, x, y, w, j);
                let ci = g.color_info;
                if j < k && glyph_px_set(gl, w, j) {
                    &&& d[o + ci.red_field_position / 8] == c.r
                    &&& d[o + ci.green_field_position / 8] == c.g
                    &&& d[o + ci.blue_field_position / 8] == c.b
                } else {
                    &&& d[o + ci.red_field_position / 8] == s[o + ci.red_field_position / 8]
                    &&& d[o + ci.green_field_position / 8] == s[o + ci.green_field_position / 8]
                    &&& d[o + ci.blue_field_position / 8] == s[o + ci.blue_field_position / 8]
                }
            },
    decreases k,
{
    let ci = g.color_info;
    let (rf, gf, bf) = (ci.red_field_position / 8, ci.green_field_position / 8, ci.blue_field_position / 8);
    if k > 0 {
        lemma_glyph_drawn_upto(g, s, gl, w, h, x, y, c, (k - 1) as nat);
        let i = k - 1;
        let prev = glyph_drawn_upto(g, s, gl, w, x, y, c, (k - 1) as nat);
        let d = glyph_drawn_upto(g, s, gl, w, x, y, c, k);
        lemma_glyph_px(g, s.len() as int, x, y, w, h, i);
        let oi = glyph_px_off(g, x, y, w, i);
        assert(pixel_in_screen(g, prev.len() as int, x + i % w, y + i / w));
        assert(glyph_bit(gl, row_bytes(w), i % w, i / w) == glyph_px_set(gl, w, i));
        assert forall|j: int| 0 <= j < w * h implies {
            let o = #[trigger] glyph_px_off(g, x, y, w, j);
            if j < k && glyph_px_set(gl, w, j) {
                &&& d[o + rf] == c.r
                &&& d[o + gf] == c.g
                &&& d[o + bf] == c.b
            } else {
                &&& d[o + rf] == s[o + rf]
                &&& d[o + gf] == s[o + gf]
                &&& d[o + bf] == s[o + bf]
            }
        } by {
            let o = glyph_px_off(g, x, y, w, j);
            lemma_glyph_px(g, s.len() as int, x, y, w, h, j);
            if j != i {
                assert(j % w != i % w || j / w != i / w);
                lemma_pixels_apart(g, x + j % w, y + j / w, x + i % w, y + i / w);
            }
        }
    }
}

/// Drawing a character paints exactly the set pixels of its glyph: where the font has a glyph for
/// `chr`, `w` by `h` pixels, drawn with its top left corner at `(x, y)` on a screen where it lies whole,
/// the screen pixel at `(x + xpos, y + ypos)` gets the color `c` when bit `xpos` (counted from the
/// highest bit of each byte) of row `ypos` of the glyph is set, and keeps its bytes otherwise.
pub proof fn law_char_drawn_pixels(
    g: ScreenGeometry,
    s: Seq<u8>,
    m: PsfModel,
    chr: char,
    x: int,
    y: int,
    c: FrameBufferColor,
    xpos: int,
    ypos: int,
)
    requires
        psf_glyph(m, chr) is Some,
        glyph_fits(m, chr),
        glyph_area_ok(g, s.len() as int, x, y, font_width(m), font_height(m)),
        0 <= xpos < font_width(m),
        0 <= ypos < font_height(m),
    ensures
        ({
            let gl = psf_glyph(m, chr)->0;
            let w = font_width(m);
            let d = char_drawn(g, s, m, chr, x, y, c);
            let o = (x + xpos) * g.pixel_width + (y + ypos) * g.pitch;
            let ci = g.color_info;
            &&& d.len() == s.len()
            &&& if (gl[ypos * ((w + 7) / 8) + xpos / 8] >> ((7 - xpos % 8) as u8)) & 1u8 != 0u8 {
                &&& d[o + ci.red_field_position / 8] == c.r
                &&& d[o + ci.green_field_position / 8] == c.g
                &&& d[o + ci.blue_field_position / 8] == c.b
            } else {
                &&& d[o + ci.red_field_position / 8] == s[o + ci.red_field_position / 8]
                &&& d[o + ci.green_field_position / 8] == s[o + ci.green_field_position / 8]
                &&& d[o + ci.blue_field_position / 8] == s[o + ci.blue_field_position / 8]
            }
        }),
{
    let gl = psf_glyph(m, chr)->0;
    let w = font_width(m);
    let h = font_height(m);
    let j = ypos * w + xpos;
    assert(0 <= j < w * h) by (nonlinear_arith)
        requires
            j == ypos * w + xpos,
            0 <= xpos < w,
            0 <= ypos < h,
    ;
    assert(j % w == xpos && j / w == ypos) by {
        vstd::arithmetic::div_mod::lemma_fundamental_div_mod_converse(j, w, ypos, xpos);
    }
    assert(gl.len() >= h * ((w + 7) / 8)) by {
        assert(h * row_bytes(w) == h * ((w + 7) / 8));
    }
    lemma_glyph_drawn_upto(g, s, gl, w, h, x, y, c, (w * h) as nat);
    assert(glyph_px_off(g, x, y, w, j) == (x + xpos) * g.pixel_width + (y + ypos) * g.pitch);
}

/// The screen `s` moved up by one line of `pitch` bytes: the last line keeps its bytes.
pub open spec fn scrolled(s: Seq<u8>, pitch: int, height: int) -> Seq<u8> {
    Seq::new(s.len(), |i: int| if i < pitch * (height - 1) { s[i + pitch] } else { s[i] })
}

/// The cursor and the screen before a character is written from `st`: a cursor past the last column
/// first moves to the start of the next row, and a row past the last pixel line stays on the last one
/// while the screen scrolls.
pub open spec fn wrapped(g: ScreenGeometry, m: PsfModel, st: (int, int, Seq<u8>)) -> (int, int, Seq<u8>) {
    let cols = g.width as int / font_width(m);
    let col = if st.0 >= cols { 0 } else { st.0 };
    let row0 = if st.0 >= cols { st.1 + 1 } else { st.1 };
    let row = if row0 >= g.height { g.height - 1 } else { row0 };
    let scr = if row0 >= g.height { scrolled(st.2, g.pitch as int, g.height as int) } else { st.2 };
    (col, row, scr)
}

/// The cursor and the screen after the printable character `chr` is written from `st`: it is drawn at
/// the (wrapped) cursor, which moves one column right.
pub open spec fn plain_step(g: ScreenGeometry, m: PsfModel, c: FrameBufferColor, st: (int, int, Seq<u8>), chr: char) -> (
    int,
    int,
    Seq<u8>,
) {
    let w = wrapped(g, m, st);
    (w.0 + 1, w.1, char_drawn(g, w.2, m, chr, w.0 * font_width(m), w.1, c))
}

/// The cursor and the screen after `n` printable characters `chr` are written from `st`.
pub open spec fn plain_steps(g: ScreenGeometry, m: PsfModel, c: FrameBufferColor, st: (int, int, Seq<u8>), chr: char, n: nat) -> (
    int,
    int,
    Seq<u8>,
)
    decreases n,
{
    if n == 0 {
        st
    } else {
        plain_step(g, m, c, plain_steps(g, m, c, st, chr, (n - 1) as nat), chr)
    }
}

/// The cursor `(column, row)` and the screen after writing `chr`.
///
/// A newline starts the next row, a carriage return the same row, a tab writes spaces up to the next
/// multiple of [TAB_SIZE] columns, and any other character is drawn at the cursor, which moves one
/// column right (see [wrapped] for what happens at the end of a row and of the screen).
pub open spec fn write_step(
    g: ScreenGeometry,
    m: PsfModel,
    c: FrameBufferColor,
    st: (int, int, Seq<u8>),
    chr: char,
) -> (int, int, Seq<u8>) {
    let w = wrapped(g, m, st);
    if chr == '\n' {
        (0, w.1 + 1, w.2)
    } else if chr == '\t' {
        plain_steps(g, m, c, w, ' ', (TAB_SIZE - w.0 % TAB_SIZE as int) as nat)
    } else if chr == '\r' {
        (0, w.1, w.2)
    } else {
        plain_step(g, m, c, st, chr)
    }
}

/// The cursor and the screen after writing the characters `cs` one after the other from `st`.
pub open spec fn written(
    g: ScreenGeometry,
    m: PsfModel,
    c: FrameBufferColor,
    st: (int, int, Seq<u8>),
    cs: Seq<char>,
) -> (int, int, Seq<u8>)
    decreases cs.len(),
{
    if cs.len() == 0 {
        st
    } else {
        write_step(g, m, c, written(g, m, c, st, cs.drop_last()), cs.last())
    }
}

/// A column before the last one that fits leaves room for a whole glyph on the line.
proof fn lemma_column_fits(col: int, w: int, width: int)
    requires
        0 <= col,
        0 < w,
        0 <= width,
        col < width / w,
    ensures
        col * w + w <= width,
{
    vstd::arithmetic::div_mod::lemma_fundamental_div_mod(width, w);
    assert(col * w + w <= (width / w) * w) by (nonlinear_arith)
        requires
            col + 1 <= width / w,
            0 < w,
    ;
    vstd::arithmetic::mul::lemma_mul_is_commutative(w, width / w);
}

/// Writing `a` and then `b` leaves the cursor and the screen as writing `a + b` at once.
pub proof fn law_written_concat(
    g: ScreenGeometry,
    m: PsfModel,
    c: FrameBufferColor,
    st: (int, int, Seq<u8>),
    a: Seq<char>,
    b: Seq<char>,
)
    ensures
        written(g, m, c, st, a + b) == written(g, m, c, written(g, m, c, st, a), b),
    decreases b.len(),
{
    if b.len() == 0 {
        assert(a + b =~= a);
    } else {
        assert((a + b).drop_last() =~= a + b.drop_last());
        assert((a + b).last() == b.last());
        law_written_concat(g, m, c, st, a, b.drop_last());
    }
}

/// Draws text with a font, keeping a cursor of columns (glyph widths) and rows (pixel lines).
pub struct FontRenderer<'a> {
    font: Psf<'a>,
    color: FrameBufferColor,
    column: u64,
    row: u64,
}

/// Why the font renderer cannot be created.
#[derive(Debug)]
pub enum FontError {
    PsfErrs((PsfError, PsfError)),
}

impl<'a> FontRenderer<'a> {
    /// The font.
    pub closed spec fn font_model(&self) -> PsfModel {
        self.font.model()
    }

    /// The text color.
    pub closed spec fn text_color(&self) -> FrameBufferColor {
        self.color
    }

    /// The cursor's column.
    pub closed spec fn column(&self) -> int {
        self.column as int
    }

    /// The cursor's row.
    pub closed spec fn row(&self) -> int {
        self.row as int
    }

    /// The cursor stays within 32 bits.
    pub closed spec fn wf(&self) -> bool {
        self.column <= u32::MAX && self.row <= u32::MAX
    }

    /// Writing `s` on `fb` is defined: the glyphs have a bit for each pixel, the font is at least a pixel
    /// wide, the screen at least a line high, and a glyph on the last line still has 32 bit coordinates.
    pub open spec fn can_write(&self, fb: Framebuffer, s: Seq<char>) -> bool {
        &&& self.wf()
        &&& fb.wf()
        &&& font_width(self.font_model()) > 0
        &&& fb.height > 0
        &&& fb.height + font_height(self.font_model()) <= u32::MAX
        &&& forall|i: int| 0 <= i < s.len() ==> glyph_fits(self.font_model(), #[trigger] s[i])
        &&& s.contains('\t') ==> glyph_fits(self.font_model(), ' ')
    }

    /// A renderer of the font in `font_bytes`, with the cursor at the top left.
    pub fn new(color: FrameBufferColor, font_bytes: &'a [u8]) -> (r: Result<Self, FontError>)
        ensures
            match psf_parse(font_bytes@) {
                Ok(m) => r matches Ok(f) && f.wf() && f.font_model() == m && f.text_color() == color && f.column() == 0
                    && f.row() == 0,
                Err(e) => r matches Err(FontError::PsfErrs(e2)) && e2 == e,
            },
    {
        match Psf::from_bytes(font_bytes) {
            Ok(font) => Ok(Self { font, color, column: 0, row: 0 }),
            Err(e) => Err(FontError::PsfErrs(e)),
        }
    }

    /// Draws `chr` with its top left corner at `(x, y)`.
    fn draw_char(&self, fb: &mut Framebuffer, chr: char, x: u32, y: u32)
        requires
            old(fb).wf(),
            glyph_fits(self.font_model(), chr),
            x + font_width(self.font_model()) <= u32::MAX,
            y + font_height(self.font_model()) <= u32::MAX,
        ensures
            same_geometry(*final(fb), *old(fb)),
            final(fb).wf(),
            final(fb).screen@ == char_drawn(old(fb).geometry(), old(fb).screen@, self.font_model(), chr, x as int, y as int, self.color),
    {
        let ghost m = self.font_model();
        let ghost fb0 = *fb;
        if let Some(glyph) = self.font.get_glyph(chr) {
            let pixel_width: u32 = self.font.pixel_width();
            let pixel_height: u32 = self.font.pixel_height();
            let bytes_per_row: u64 = pixel_width as u64 / 8 + if pixel_width % 8 != 0 { 1 } else { 0 };
            proof {
                assert(pixel_width * pixel_height <= 0xFFFF_FFFF * 0xFFFF_FFFF) by (nonlinear_arith)
                    requires
                        pixel_width <= 0xFFFF_FFFF,
                        pixel_height <= 0xFFFF_FFFF,
                ;
            }
            let total: u64 = pixel_width as u64 * pixel_height as u64;
            let glen = glyph.len();
            let len = fb.screen.len();
            proof {
                assert(bytes_per_row == row_bytes(font_width(m)));
                assert(total == font_width(m) * font_height(m));
            }
            let mut k: u64 = 0;
            while k < total
                invariant
                    k <= total,
                    total == font_width(m) * font_height(m),
                    pixel_width == font_width(m),
                    pixel_height == font_height(m),
                    bytes_per_row == row_bytes(font_width(m)),
                    glyph@.len() >= font_height(m) * row_bytes(font_width(m)),
                    glen == glyph@.len(),
                    x + pixel_width <= u32::MAX,
                    y + pixel_height <= u32::MAX,
                    same_geometry(*fb, fb0),
                    fb.screen@.len() == len,
                    len == fb0.screen@.len(),
                    fb0.wf(),
                    fb.screen@ == glyph_drawn_upto(fb0.geometry(), fb0.screen@, glyph@, font_width(m), x as int, y as int, self.color, k as nat),
                decreases total - k,
            {
                proof {
                    assert(pixel_width > 0 && pixel_height > 0) by (nonlinear_arith)
                        requires
                            k < total,
                            total == pixel_width * pixel_height,
                    ;
                }
                let xpos: u64 = k % pixel_width as u64;
                let ypos: u64 = k / pixel_width as u64;
                proof {
                    vstd::arithmetic::div_mod::lemma_fundamental_div_mod(k as int, pixel_width as int);
                    assert(ypos < pixel_height) by {
                        vstd::arithmetic::div_mod::lemma_div_is_ordered(k as int, total as int - 1, pixel_width as int);
                        vstd::arithmetic::div_mod::lemma_div_multiples_vanish_fancy(pixel_height as int - 1,
                            pixel_width as int - 1, pixel_width as int);
                        assert(total - 1 == pixel_width * (pixel_height - 1) + pixel_width - 1) by (nonlinear_arith)
                            requires
                                total == pixel_width * pixel_height,
                                pixel_height >= 1;
                    }
                    assert(ypos * bytes_per_row + xpos / 8 < glyph@.len()) by (nonlinear_arith)
                        requires
                            ypos < pixel_height,
                            xpos < pixel_width,
                            bytes_per_row == (pixel_width + 7) / 8,
                            glyph@.len() >= pixel_height * bytes_per_row,
                    ;
                    assert(ypos * bytes_per_row <= ypos * bytes_per_row + xpos / 8);
                    assert(ypos * bytes_per_row >= 0) by (nonlinear_arith);
                }
                let byte: u8 = glyph[(ypos * bytes_per_row + xpos / 8) as usize];
                let shift: u8 = (7 - xpos % 8) as u8;
                let px: u64 = x as u64 + xpos;
                let py: u64 = y as u64 + ypos;
                if (byte >> shift) & 1u8 != 0u8 {
                    proof {
                        assert(px * fb.pixel_width <= 0x2_0000_0000 * 0xFFFF_FFFF) by (nonlinear_arith)
                            requires
                                px <= 0x2_0000_0000,
                                fb.pixel_width <= 0xFFFF_FFFF,
                        ;
                        assert(py * fb.pitch <= 0x2_0000_0000 * 0xFFFF_FFFF) by (nonlinear_arith)
                            requires
                                py <= 0x2_0000_0000,
                                fb.pitch <= 0xFFFF_FFFF,
                        ;
                    }
                    let off: u128 = px as u128 * fb.pixel_width as u128 + py as u128 * fb.pitch as u128;
                    let l: u128 = len as u128;
                    let r_at: u128 = off + (fb.color_info.red_field_position / 8) as u128;
                    let g_at: u128 = off + (fb.color_info.green_field_position / 8) as u128;
                    let b_at: u128 = off + (fb.color_info.blue_field_position / 8) as u128;
                    if r_at < l && g_at < l && b_at < l {
                        KLoggerPainter::put_pixel(fb, px as u32, py as u32, self.color);
                    }
                }
                k = k + 1;
            }
        }
    }

    /// Moves the screen up by one line of `pitch` bytes.
    fn scroll(fb: &mut Framebuffer)
        requires
            old(fb).wf(),
            old(fb).height > 0,
        ensures
            same_geometry(*final(fb), *old(fb)),
            final(fb).wf(),
            final(fb).screen@ == scrolled(old(fb).screen@, old(fb).pitch as int, old(fb).height as int),
    {
        let ghost fb0 = *fb;
        let len = fb.screen.len();
        proof {
            assert(fb.pitch * (fb.height - 1) + fb.pitch == fb.pitch * fb.height) by (nonlinear_arith);
            assert(fb.pitch * (fb.height - 1) >= 0) by (nonlinear_arith)
                requires
                    fb.height > 0,
            ;
        }
        let pitch: usize = fb.pitch as usize;
        let n: usize = len - pitch;
        let mut i: usize = 0;
        while i < n
            invariant
                i <= n,
                n + pitch == len,
                n == fb0.pitch * (fb0.height - 1),
                pitch == fb0.pitch,
                len == fb0.screen@.len(),
                fb.screen@.len() == len,
                same_geometry(*fb, fb0),
                forall|j: int| 0 <= j < i ==> fb.screen@[j] == fb0.screen@[j + pitch],
                forall|j: int| i <= j < len ==> fb.screen@[j] == fb0.screen@[j],
            decreases n - i,
        {
            let b = fb.screen[i + pitch];
            fb.screen.set(i, b);
            i = i + 1;
        }
        assert(fb.screen@ =~= scrolled(fb0.screen@, fb0.pitch as int, fb0.height as int));
    }

    /// Moves the cursor to the next row when it is past the last column, and scrolls the screen when
    /// the row is past the last pixel line, as [wrapped] says.
    fn wrap_cursor(&mut self, fb: &mut Framebuffer, cols: u64)
        requires
            old(self).wf(),
            old(fb).wf(),
            font_width(old(self).font_model()) > 0,
            cols == old(fb).width as int / font_width(old(self).font_model()),
            old(fb).height > 0,
        ensures
            final(self).wf(),
            final(self).font_model() == old(self).font_model(),
            final(self).color == old(self).color,
            final(fb).wf(),
            same_geometry(*final(fb), *old(fb)),
            (final(self).column(), final(self).row(), final(fb).screen@) == wrapped(
                old(fb).geometry(),
                old(self).font_model(),
                (old(self).column(), old(self).row(), old(fb).screen@),
            ),
            final(self).column() == 0 || final(self).column() < cols,
            final(self).row() < old(fb).height,
    {
        if self.column >= cols {
            // go to the next line
            self.column = 0;
            self.row = self.row + 1;
        }
        if self.row >= fb.height as u64 {
            // "scroll" down
            self.row = fb.height as u64 - 1;
            Self::scroll(fb);
        }
    }

    /// Writes the printable character `chr` at the cursor, as [plain_step] says.
    fn write_plain(&mut self, fb: &mut Framebuffer, chr: char, cols: u64)
        requires
            old(self).wf(),
            old(fb).wf(),
            font_width(old(self).font_model()) > 0,
            cols == old(fb).width as int / font_width(old(self).font_model()),
            old(fb).height > 0,
            old(fb).height + font_height(old(self).font_model()) <= u32::MAX,
            glyph_fits(old(self).font_model(), chr),
        ensures
            final(self).wf(),
            final(self).font_model() == old(self).font_model(),
            final(self).color == old(self).color,
            final(fb).wf(),
            same_geometry(*final(fb), *old(fb)),
            (final(self).column(), final(self).row(), final(fb).screen@) == plain_step(
                old(fb).geometry(),
                old(self).font_model(),
                old(self).color,
                (old(self).column(), old(self).row(), old(fb).screen@),
                chr,
            ),
    {
        let pw: u32 = self.font.pixel_width();
        self.wrap_cursor(fb, cols);
        let col32: u32 = self.column as u32;
        proof {
            if self.column > 0 {
                lemma_column_fits(self.column as int, pw as int, fb.width as int);
            } else {
                assert(col32 * pw == 0) by (nonlinear_arith)
                    requires
                        col32 == 0,
                ;
            }
            assert(col32 * pw + pw <= u32::MAX);
        }
        self.draw_char(fb, chr, col32 * pw, self.row as u32);
        self.column = self.column + 1;
    }

    /// Writes `s` on the screen at the cursor, character after character, as [write_step] says.
    pub fn write_str(&mut self, fb: &mut Framebuffer, s: &str)
        requires
            old(self).can_write(*old(fb), s@),
        ensures
            final(self).wf(),
            final(self).font_model() == old(self).font_model(),
            final(self).text_color() == old(self).text_color(),
            same_geometry(*final(fb), *old(fb)),
            final(fb).wf(),
            (final(self).column(), final(self).row(), final(fb).screen@) == written(
                old(fb).geometry(),
                old(self).font_model(),
                old(self).text_color(),
                (old(self).column(), old(self).row(), old(fb).screen@),
                s@,
            ),
    {
        let ghost m = self.font_model();
        let ghost g = fb.geometry();
        let ghost c = self.color;
        let ghost st0 = (self.column(), self.row(), fb.screen@);
        let ghost fb0 = *fb;
        let pw: u32 = self.font.pixel_width();
        let cols: u64 = (fb.width / pw) as u64;
        let mut chars = s.chars();
        let ghost mut done: int = 0;
        proof {
            assert(s@.take(0) =~= Seq::<char>::empty());
        }
        loop
            invariant
                0 <= done <= s@.len(),
                vstd::std_specs::iter::IteratorSpec::remaining(&chars) == s@.skip(done),
                self.wf(),
                self.font_model() == m,
                self.color == c,
                fb.wf(),
                same_geometry(*fb, fb0),
                g == fb0.geometry(),
                fb0.wf(),
                pw == font_width(m),
                pw > 0,
                cols == fb0.width / pw,
                fb0.height > 0,
                fb0.height + font_height(m) <= u32::MAX,
                forall|i: int| 0 <= i < s@.len() ==> glyph_fits(m, #[trigger] s@[i]),
                s@.contains('\t') ==> glyph_fits(m, ' '),
                (self.column(), self.row(), fb.screen@) == written(g, m, c, st0, s@.take(done)),
            ensures
                done == s@.len(),
            decreases s@.len() - done,
        {
            let chr = match chars.next() {
                Some(ch) => ch,
                None => {
                    break;
                },
            };
            proof {
                assert(chr == s@[done]);
            }
            if chr == '\n' {
                self.wrap_cursor(fb, cols);
                self.column = 0;
                self.row = self.row + 1;
            } else if chr == '\t' {
                self.wrap_cursor(fb, cols);
                // calculate how many spaces it needs to write
                let count: u64 = TAB_SIZE - self.column % TAB_SIZE;
                proof {
                    assert(s@.contains('\t'));
                }
                let ghost w = (self.column(), self.row(), fb.screen@);
                let mut j: u64 = 0;
                while j < count
                    invariant
                        j <= count,
                        self.wf(),
                        same_geometry(*fb, fb0),
                        fb.geometry() == g,
                        fb.wf(),
                        fb0.height > 0,
                        fb0.height + font_height(m) <= u32::MAX,
                        pw == font_width(m),
                        pw > 0,
                        cols == fb0.width / pw,
                        self.font_model() == m,
                        self.color == c,
                        glyph_fits(m, ' '),
                        (self.column(), self.row(), fb.screen@) == plain_steps(g, m, c, w, ' ', j as nat),
                    decreases count - j,
                {
                    // write the spaces one after the other
                    self.write_plain(fb, ' ', cols);
                    j = j + 1;
                }
            } else if chr == '\r' {
                self.wrap_cursor(fb, cols);
                self.column = 0;
            } else {
                self.write_plain(fb, chr, cols);
            }
            proof {
                done = done + 1;
                assert(s@.take(done).drop_last() =~= s@.take(done - 1));
                assert(s@.skip(done - 1).drop_first() =~= s@.skip(done));
            }
        }
        proof {
            assert(s@.take(done) =~= s@);
        }
    }

    /// Sets the text color.
    pub fn set_color(&mut self, color: FrameBufferColor)
        ensures
            final(self).text_color() == color,
            final(self).font_model() == old(self).font_model(),
            final(self).column() == old(self).column(),
            final(self).row() == old(self).row(),
            final(self).wf() == old(self).wf(),
    {
        self.color = color;
    }

    /// The text color.
    pub fn color(&self) -> (r: FrameBufferColor)
        ensures
            r == self.text_color(),
    {
        self.color
    }
}

} // verus!
