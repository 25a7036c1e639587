//! The framebuffer that the bootloader set up, mapped into the higher half, and its colors.
use vstd::prelude::*;
use crate::memory::{AddrOps, MemoryError, PhysicalAddress, VirtualAddress, FRAME_PAGE_SIZE};
use crate::memory::frames::{Frame, FrameAllocator};
use crate::memory::pages::Page;
use crate::memory::pages::page_table::EntryFlags;
use crate::memory::pages::paging::{page_key, ActivePagingContext};
use crate::memory::pages::simple_page_allocator::{fits_somewhere, grows_with, is_first_fit, window_free, BitmapPageAllocator, HH_START};
use crate::multiboot2::{fb_tag, MbInfo};
use crate::multiboot2::framebuffer_info::{fb_type_of, ColorInfoDirectRGBColor, FrameBufferInfo, FrameBufferInfoError, FrameBufferType};

verus! {

/// A direct RGB framebuffer with 8 bit colors, mapped at `vir_addr`, and the bytes of the screen.
///
/// `screen` holds the `pitch * height` bytes of the framebuffer memory: drawing writes them, and the
/// owner of the mapping copies them to the memory at `vir_addr`.
pub struct Framebuffer {
    pub phy_addr: PhysicalAddress,
    pub vir_addr: VirtualAddress,
    /// bytes per line
    pub pitch: u32,
    pub width: u32,
    pub height: u32,
    pub bpp: u8,
    /// pixel size in bytes
    pub pixel_width: u32,
    pub color_info: ColorInfoDirectRGBColor,
    pub screen: Vec<u8>,
}

/// What drawing on a framebuffer depends on: its line length, size, pixel size and where the color
/// bytes are.
pub struct ScreenGeometry {
    pub pitch: u32,
    pub width: u32,
    pub height: u32,
    pub pixel_width: u32,
    pub color_info: ColorInfoDirectRGBColor,
}

/// Why the framebuffer cannot be set up.
#[derive(Debug)]
pub enum FrameBufferError {
    WrongFrameBufferType,
    Non8BitFramebuffer,
    FrameBufferTagDoesNotExist,
    FrameBufferInfoErr(FrameBufferInfoError),
    MemoryErr(MemoryError),
}

/// A direct RGB framebuffer with 8 bit red, green and blue fields: the only kind that is supported.
pub open spec fn fb_supported(i: FrameBufferInfo) -> bool {
    &&& i.fb_type == 1
    &&& i.color_info.red_mask_size == 8
    &&& i.color_info.green_mask_size == 8
    &&& i.color_info.blue_mask_size == 8
}

/// The error that setting up a framebuffer reports before it maps anything, when the boot information
/// holds the framebuffer tag `t`: a missing tag, an unknown or unsupported type, or colors that are not
/// 8 bit.
pub open spec fn fb_check_error(t: Option<FrameBufferInfo>) -> Option<FrameBufferError> {
    match t {
        None => Some(FrameBufferError::FrameBufferTagDoesNotExist),
        Some(i) => if fb_type_of(i.fb_type) is Err {
            Some(FrameBufferError::FrameBufferInfoErr(FrameBufferInfoError::UnknownFrameBufferType))
        } else if i.fb_type != 1 {
            Some(FrameBufferError::WrongFrameBufferType)
        } else if !fb_supported(i) {
            Some(FrameBufferError::Non8BitFramebuffer)
        } else {
            None
        },
    }
}

/// The number of pages that the framebuffer of `i` spans.
pub open spec fn fb_page_count(i: FrameBufferInfo) -> int {
    (i.pitch * i.height + 4095) / 4096
}

/// What mapping the framebuffer of `i` needs: a screen of at least one byte that fits in memory, and
/// physical frames below the 52 bit limit of physical addresses.
pub open spec fn fb_mappable(i: FrameBufferInfo) -> bool {
    &&& i.pitch * i.height > 0
    &&& i.pitch * i.height <= usize::MAX
    &&& i.phy_addr + fb_page_count(i) * 4096 <= 0x10_0000_0000_0000
}

/// Page numbers whose keys are at most 2^36 apart and do not wrap have keys that many apart.
proof fn lemma_key_step(p: u64, k: u64)
    requires
        p + k <= u64::MAX,
        page_key(p) + k < 0x10_0000_0000,
    ensures
        page_key((p + k) as u64) == page_key(p) + k,
{
    vstd::arithmetic::div_mod::lemma_add_mod_noop(p as int, k as int, 0x10_0000_0000);
    vstd::arithmetic::div_mod::lemma_small_mod(k as nat, 0x10_0000_0000);
    vstd::arithmetic::div_mod::lemma_small_mod((page_key(p) + k) as nat, 0x10_0000_0000);
}

/// Rounding up to whole pages and counting them is dividing by the page size, rounded up.
proof fn lemma_page_count(x: int)
    requires
        0 <= x,
    ensures
        crate::memory::align_up_spec(x, 4096) / 4096 == (x + 4095) / 4096,
{
    vstd::arithmetic::div_mod::lemma_fundamental_div_mod(x, 4096);
    let q = x / 4096;
    let r = x % 4096;
    if r == 0 {
        vstd::arithmetic::div_mod::lemma_div_multiples_vanish_fancy(q, 0, 4096);
        vstd::arithmetic::div_mod::lemma_div_multiples_vanish_fancy(q, 4095, 4096);
    } else {
        vstd::arithmetic::div_mod::lemma_div_multiples_vanish_fancy(q + 1, 0, 4096);
        vstd::arithmetic::div_mod::lemma_div_multiples_vanish_fancy(q + 1, r - 1, 4096);
    }
}

impl Framebuffer {
    /// The framebuffer's geometry.
    pub open spec fn geometry(&self) -> ScreenGeometry {
        ScreenGeometry {
            pitch: self.pitch,
            width: self.width,
            height: self.height,
            pixel_width: self.pixel_width,
            color_info: self.color_info,
        }
    }

    /// The screen holds exactly `pitch * height` bytes.
    pub open spec fn wf(&self) -> bool {
        self.screen@.len() == self.pitch * self.height
    }

    /// Sets up the framebuffer that the boot information describes: checks that it is a direct RGB
    /// framebuffer with 8 bit colors, takes a run of pages from `pa` and maps them in `ctx` to the
    /// framebuffer's frames, writable and not executable.
    pub fn new<A: FrameAllocator>(
        mb_info: &MbInfo,
        pa: &mut BitmapPageAllocator,
        ctx: &mut ActivePagingContext,
        fa: &mut A,
    ) -> (r: Result<Framebuffer, FrameBufferError>)
        requires
            old(pa).wf(),
            old(pa).is_initialized(),
            old(ctx).wf(),
            old(fa).ready(),
            match fb_tag(mb_info.tags()) {
                Some(i) => fb_supported(i) ==> fb_mappable(i) && !old(pa).block_at_missing_bitmap_end(fb_page_count(i)),
                None => true,
            },
        ensures
            final(pa).wf(),
            final(pa).is_initialized(),
            final(ctx).wf(),
            final(fa).ready(),
            fb_check_error(fb_tag(mb_info.tags())) matches Some(e) ==> r matches Err(e2) && e2 == e,
            fb_check_error(fb_tag(mb_info.tags())) is None ==> {
                let i = fb_tag(mb_info.tags())->0;
                let n = fb_page_count(i);
                &&& (r matches Err(FrameBufferError::MemoryErr(MemoryError::NotEnoughVirMemory)))
                    <==> !fits_somewhere(old(pa)@, old(pa).search_from(), n)
                &&& fits_somewhere(old(pa)@, old(pa).search_from(), n) && (forall|s: int, k: int|
                    is_first_fit(old(pa)@, old(pa).search_from(), n, s) && 0 <= k < n ==> (#[trigger] old(ctx).translation(
                        (s + HH_START / 4096 + k) as u64,
                    )) is None) && old(fa).can_hand_out((3 * n) as nat) ==> r is Ok
                &&& r matches Err(e) ==> (e matches FrameBufferError::MemoryErr(m) && (m == MemoryError::NotEnoughVirMemory
                    || m == MemoryError::NotEnoughPhyMemory || m == MemoryError::MappingUsedTableEntry))
                &&& (r matches Err(FrameBufferError::MemoryErr(MemoryError::MappingUsedTableEntry))) ==> exists|s: int, k: int|
                    {
                        &&& is_first_fit(old(pa)@, old(pa).search_from(), n, s)
                        &&& 0 <= k < n
                        &&& (#[trigger] old(ctx).translation((s + HH_START / 4096 + k) as u64)) is Some
                    }
                &&& r matches Ok(fb) ==> {
                    let vp = fb.vir_addr / FRAME_PAGE_SIZE;
                    &&& fb.wf()
                    &&& fb.phy_addr == i.phy_addr
                    &&& fb.pitch == i.pitch
                    &&& fb.width == i.width
                    &&& fb.height == i.height
                    &&& fb.bpp == i.bpp
                    &&& fb.pixel_width == i.bpp / 8
                    &&& fb.color_info == i.color_info
                    &&& forall|j: int| 0 <= j < fb.screen@.len() ==> fb.screen@[j] == 0
                    &&& fb.vir_addr % FRAME_PAGE_SIZE == 0
                    &&& is_first_fit(old(pa)@, old(pa).search_from(), n, vp - HH_START / 4096)
                    &&& grows_with(old(pa)@, final(pa)@, old(pa).level2_start(), vp - HH_START / 4096, n)
                    &&& forall|k: int| 0 <= k < n ==> #[trigger] final(ctx).translation((vp + k) as u64) == Some(
                        (i.phy_addr / FRAME_PAGE_SIZE + k) as u64,
                    )
                    &&& forall|q: u64| !(page_key(vp) <= page_key(q) < page_key(vp) + n)
                        ==> #[trigger] final(ctx).translation(q) == old(ctx).translation(q)
                }
            },
    {
        let framebuffer = match mb_info.framebuffer_tag() {
            Some(t) => t,
            None => {
                return Err(FrameBufferError::FrameBufferTagDoesNotExist);
            },
        };
        // only RGB framebuffers are supported
        let fb_type = match framebuffer.get_type() {
            Ok(t) => t,
            Err(e) => {
                return Err(FrameBufferError::FrameBufferInfoErr(e));
            },
        };
        if fb_type != FrameBufferType::DirectRGBColor {
            return Err(FrameBufferError::WrongFrameBufferType);
        }
        // only 8bit framebuffers are supported
        let color_info = framebuffer.get_color_info();
        if color_info.red_mask_size != 8 || color_info.blue_mask_size != 8 || color_info.green_mask_size != 8 {
            return Err(FrameBufferError::Non8BitFramebuffer);
        }
        let ghost i = framebuffer;
        let size: u64 = framebuffer.pitch as u64 * framebuffer.height as u64;
        proof {
            assert(size <= 0xFFFF_FFFF * 0xFFFF_FFFF) by (nonlinear_arith)
                requires
                    size == framebuffer.pitch * framebuffer.height,
            ;
            crate::memory::lemma_frame_page_size_power_of_two();
        }
        let page_count: u64 = size.align_up(FRAME_PAGE_SIZE) / FRAME_PAGE_SIZE;
        proof {
            lemma_page_count(size as int);
            assert(page_count == fb_page_count(i));
        }
        let page = match pa.allocate_contiguous(page_count as usize) {
            Ok(p) => p,
            Err(e) => {
                return Err(FrameBufferError::MemoryErr(e));
            },
        };
        let vir_addr = page.addr();
        let ghost s = page@ - HH_START as int / FRAME_PAGE_SIZE as int;
        let ghost ctx0 = *ctx;
        proof {
            assert(window_free(old(pa)@, s, page_count as int));
            assert(HH_START as int / 4096 == 0xF_FFF8_0000_0000);
            assert(vir_addr + page_count * 4096 <= 0xFFFF_FF80_0000_0000) by (nonlinear_arith)
                requires
                    vir_addr == page@ * 4096,
                    page@ == s + 0xF_FFF8_0000_0000,
                    s + page_count <= 261120 * 131072,
                    s >= 0,
            ;
            assert(page_key(page@) == 0x8_0000_0000 + s) by {
                vstd::arithmetic::div_mod::lemma_mod_add_multiples_vanish(
                    (0x8_0000_0000 + s) as int, 0x10_0000_0000);
                assert(page@ == 0xFFFF * 0x10_0000_0000 + 0x8_0000_0000 + s);
                vstd::arithmetic::div_mod::lemma_mod_multiples_vanish(0xFFFF, (0x8_0000_0000 + s) as int, 0x10_0000_0000);
                vstd::arithmetic::div_mod::lemma_small_mod((0x8_0000_0000 + s) as nat, 0x10_0000_0000);
            }
            assert(vir_addr / 4096 == page@) by {
                vstd::arithmetic::div_mod::lemma_div_multiples_vanish_fancy(page@ as int, 0, 4096);
            }
            assert(framebuffer.phy_addr / 4096 + page_count <= 0x100_0000_0000) by {
                vstd::arithmetic::div_mod::lemma_div_is_ordered(
                    framebuffer.phy_addr as int, 0x10_0000_0000_0000 - page_count * 4096, 4096);
                vstd::arithmetic::div_mod::lemma_div_multiples_vanish_fancy(0x100_0000_0000 - page_count, 0, 4096);
            }
        }
        let flags = EntryFlags::from_bits_truncate(EntryFlags::PRESENT | EntryFlags::WRITABLE | EntryFlags::NO_EXECUTE);
        let ghost ok = (forall|s2: int, k: int|
            is_first_fit(old(pa)@, old(pa).search_from(), page_count as int, s2) && 0 <= k < page_count ==> (#[trigger] old(
                ctx,
            ).translation((s2 + HH_START / 4096 + k) as u64)) is None) && old(fa).can_hand_out((3 * page_count) as nat);
        let mut i_page: u64 = 0;
        while i_page < page_count
            invariant
                i_page <= page_count,
                page_count == fb_page_count(i),
                page_count <= 261120 * 131072,
                vir_addr == page@ * 4096,
                vir_addr / 4096 == page@,
                vir_addr + page_count * 4096 <= 0xFFFF_FF80_0000_0000,
                vir_addr >= HH_START,
                page_key(page@) == 0x8_0000_0000 + s,
                0 <= s,
                s + page_count <= 261120 * 131072,
                page@ == s + 0xF_FFF8_0000_0000,
                framebuffer.phy_addr + page_count * 4096 <= 0x10_0000_0000_0000,
                framebuffer.phy_addr / 4096 + page_count <= 0x100_0000_0000,
                ctx.wf(),
                fa.ready(),
                pa.wf(),
                pa.is_initialized(),
                ctx0 == *old(ctx),
                framebuffer == i,
                fb_tag(mb_info.tags()) == Some(i),
                fb_supported(i),
                is_first_fit(old(pa)@, old(pa).search_from(), page_count as int, s),
                grows_with(old(pa)@, pa@, old(pa).level2_start(), s, page_count as int),
                forall|k: int| 0 <= k < i_page ==> #[trigger] ctx.translation((page@ + k) as u64) == Some(
                    (framebuffer.phy_addr / FRAME_PAGE_SIZE + k) as u64,
                ),
                forall|q: u64| !(page_key(page@) <= page_key(q) < page_key(page@) + i_page) ==> #[trigger] ctx.translation(q)
                    == ctx0.translation(q),
                forall|k: int| 0 <= k < i_page ==> (#[trigger] ctx0.translation((page@ + k) as u64)) is None,
                ok == ((forall|s2: int, k: int|
                    is_first_fit(old(pa)@, old(pa).search_from(), page_count as int, s2) && 0 <= k < page_count ==> (#[trigger] old(
                        ctx,
                    ).translation((s2 + HH_START / 4096 + k) as u64)) is None) && old(fa).can_hand_out((3 * page_count) as nat)),
                ok ==> fa.can_hand_out((3 * (page_count - i_page)) as nat),
            decreases page_count - i_page,
        {
            let offset = i_page * FRAME_PAGE_SIZE;
            let frame = Frame::from_phy_addr(framebuffer.phy_addr + offset);
            let vpage = match Page::from_virt_addr(vir_addr + offset) {
                Ok(p) => p,
                Err(e) => {
                    return Err(FrameBufferError::MemoryErr(e));
                },
            };
            proof {
                assert(frame@ == framebuffer.phy_addr / 4096 + i_page) by {
                    vstd::arithmetic::div_mod::lemma_hoist_over_denominator(framebuffer.phy_addr as int, i_page as int, 4096);
                }
                assert(vpage@ == page@ + i_page) by {
                    vstd::arithmetic::div_mod::lemma_div_multiples_vanish_fancy((page@ + i_page) as int, 0, 4096);
                }
                lemma_key_step(page@, i_page);
                if ok {
                    assert((s + HH_START / 4096 + i_page) as u64 == vpage@);
                    assert(old(ctx).translation((s + HH_START / 4096 + i_page) as u64) is None);
                    assert(ctx.translation(vpage@) == ctx0.translation(vpage@));
                    crate::memory::frames::lemma_can_hand_out_le(&*fa, (3 * (page_count - i_page)) as nat, 3);
                }
            }
            let ghost fa1 = *fa;
            let res = ctx.map_page_to_frame(vpage, frame, flags, fa);
            proof {
                if ok && res is Ok {
                    assert(fa.can_hand_out((3 * (page_count - i_page - 1)) as nat)) by {
                        assert((3 * (page_count - i_page - 1)) as nat + 3 == (3 * (page_count - i_page)) as nat);
                    }
                }
            }
            match res {
                Ok(()) => {},
                Err(e) => {
                    proof {
                        assert(!ok);
                        assert(window_free(old(pa)@, s, page_count as int));
                        if e == MemoryError::MappingUsedTableEntry {
                            assert(old(ctx).translation((s + HH_START / 4096 + i_page) as u64) is Some);
                        }
                    }
                    return Err(FrameBufferError::MemoryErr(e));
                },
            }
            proof {
                assert forall|k: int| 0 <= k < i_page + 1 implies #[trigger] ctx.translation((page@ + k) as u64) == Some(
                    (framebuffer.phy_addr / FRAME_PAGE_SIZE + k) as u64,
                ) by {
                    if k < i_page {
                        lemma_key_step(page@, k as u64);
                    }
                }
            }
            i_page = i_page + 1;
        }
        let n: usize = size as usize;
        let screen: Vec<u8> = vec![0u8; n];
        Ok(
            Framebuffer {
                phy_addr: framebuffer.phy_addr,
                vir_addr,
                pitch: framebuffer.pitch,
                width: framebuffer.width,
                height: framebuffer.height,
                bpp: framebuffer.bpp,
                pixel_width: (framebuffer.bpp / 8) as u32,
                color_info: *color_info,
                screen,
            },
        )
    }
}

/// A color of the framebuffer.
#[derive(Clone, Copy, PartialEq, Eq, Structural, Debug)]
pub struct FrameBufferColor {
    pub r: u8,
    pub g: u8,
    pub b: u8,
}

impl FrameBufferColor {
    pub fn new(r: u8, g: u8, b: u8) -> (c: Self)
        ensures
            c == (FrameBufferColor { r, g, b }),
    {
        FrameBufferColor { r, g, b }
    }
}

} // verus!
