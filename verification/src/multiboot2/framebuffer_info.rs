//! The framebuffer information tag of the boot information.
use vstd::prelude::*;
use crate::graphics::klogger::psf::psf2::{le_u32, read_le_u32};
use crate::multiboot2::MbTagHeader;

verus! {

/// The kind of framebuffer that the bootloader set up.
#[derive(PartialEq, Eq, Structural, Clone, Copy, Debug)]
pub enum FrameBufferType {
    Indexed,
    DirectRGBColor,
    EGAText,
}

/// Why the framebuffer information cannot be read.
#[derive(PartialEq, Eq, Structural, Clone, Copy, Debug)]
pub enum FrameBufferInfoError {
    /// The type byte is none of the three kinds the standard defines.
    UnknownFrameBufferType,
}

/// Where the red, green and blue bytes of a pixel are, for a direct RGB framebuffer.
#[derive(PartialEq, Eq, Structural, Clone, Copy, Debug)]
pub struct ColorInfoDirectRGBColor {
    pub red_field_position: u8,
    pub red_mask_size: u8,
    pub green_field_position: u8,
    pub green_mask_size: u8,
    pub blue_field_position: u8,
    pub blue_mask_size: u8,
}

/// The framebuffer information tag (type 8).
#[derive(Clone, Copy)]
pub struct FrameBufferInfo {
    pub header: MbTagHeader,
    pub phy_addr: u64,
    pub pitch: u32,
    pub width: u32,
    pub height: u32,
    pub bpp: u8,
    pub fb_type: u8,
    pub color_info: ColorInfoDirectRGBColor,
}

/// The number of bytes of the framebuffer tag that are read.
pub const FB_TAG_LEN: usize = 38;

/// The framebuffer tag at `off` of `tags`, if all the fields that are read lie in the bytes: the header,
/// the 64 bit address, pitch, width and height, the bpp and type bytes, two reserved bytes and the six
/// color bytes.
pub open spec fn fb_info_at(tags: Seq<u8>, off: int) -> Option<FrameBufferInfo> {
    if 0 <= off && off + 38 <= tags.len() {
        Some(
            FrameBufferInfo {
                header: MbTagHeader { tag_type: le_u32(tags, off), size: le_u32(tags, off + 4) },
                phy_addr: (le_u32(tags, off + 8) as int + le_u32(tags, off + 12) as int * 0x1_0000_0000) as u64,
                pitch: le_u32(tags, off + 16),
                width: le_u32(tags, off + 20),
                height: le_u32(tags, off + 24),
                bpp: tags[off + 28],
                fb_type: tags[off + 29],
                color_info: ColorInfoDirectRGBColor {
                    red_field_position: tags[off + 32],
                    red_mask_size: tags[off + 33],
                    green_field_position: tags[off + 34],
                    green_mask_size: tags[off + 35],
                    blue_field_position: tags[off + 36],
                    blue_mask_size: tags[off + 37],
                },
            },
        )
    } else {
        None
    }
}

/// The reading of the framebuffer tag at `off`, for a caller that already knows it is in the bytes.
pub(crate) fn read_fb_info(t: &[u8], off: usize) -> (r: Option<FrameBufferInfo>)
    ensures
        r == fb_info_at(t@, off as int),
{
    if off > t.len() || t.len() - off < FB_TAG_LEN {
        return None;
    }
    let lo = read_le_u32(t, off + 8);
    let hi = read_le_u32(t, off + 12);
    Some(
        FrameBufferInfo {
            header: MbTagHeader { tag_type: read_le_u32(t, off), size: read_le_u32(t, off + 4) },
            phy_addr: lo as u64 + hi as u64 * 0x1_0000_0000,
            pitch: read_le_u32(t, off + 16),
            width: read_le_u32(t, off + 20),
            height: read_le_u32(t, off + 24),
            bpp: t[off + 28],
            fb_type: t[off + 29],
            color_info: ColorInfoDirectRGBColor {
                red_field_position: t[off + 32],
                red_mask_size: t[off + 33],
                green_field_position: t[off + 34],
                green_mask_size: t[off + 35],
                blue_field_position: t[off + 36],
                blue_mask_size: t[off + 37],
            },
        },
    )
}

/// The kind that the type byte `t` names, if any.
pub open spec fn fb_type_of(t: u8) -> Result<FrameBufferType, FrameBufferInfoError> {
    if t == 0 {
        Ok(FrameBufferType::Indexed)
    } else if t == 1 {
        Ok(FrameBufferType::DirectRGBColor)
    } else if t == 2 {
        Ok(FrameBufferType::EGAText)
    } else {
        Err(FrameBufferInfoError::UnknownFrameBufferType)
    }
}

impl FrameBufferInfo {
    /// The kind of the framebuffer.
    pub fn get_type(&self) -> (r: Result<FrameBufferType, FrameBufferInfoError>)
        ensures
            r == fb_type_of(self.fb_type),
    {
        match self.fb_type {
            0 => Ok(FrameBufferType::Indexed),
            1 => Ok(FrameBufferType::DirectRGBColor),
            2 => Ok(FrameBufferType::EGAText),
            _ => Err(FrameBufferInfoError::UnknownFrameBufferType),
        }
    }

    /// Where the color bytes of a pixel are.
    pub fn get_color_info(&self) -> (r: &ColorInfoDirectRGBColor)
        ensures
            *r == self.color_info,
    {
        &self.color_info
    }
}

} // verus!
