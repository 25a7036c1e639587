//! The multiboot2 boot information: its header, its tags and the ELF section flags.
//
// for more information about the multiboot2 standard and the boot information structures, please see:
// https://wiki.osdev.org/Multiboot
// https://www.gnu.org/software/grub/manual/multiboot2/multiboot.html#Boot-information-format
use vstd::prelude::*;
use crate::graphics::klogger::psf::psf2::{le_u32, read_le_u32};
use crate::multiboot2::framebuffer_info::{fb_info_at, read_fb_info, FrameBufferInfo};
use crate::multiboot2::elf_symbols::{ElfSection, ElfSectionFlags};
use crate::multiboot2::memory_map::{MemoryMapEntries, MemoryMapEntry};

pub mod elf_symbols;
pub mod framebuffer_info;
pub mod memory_map;

verus! {

/// The tag types that the kernel reads.
#[derive(PartialEq, Eq, Structural, Clone, Copy, Debug)]
pub enum TagType {
    End,
    MemInfo,
    MemMap,
    FrameBuffer,
    ElfSymbols,
    EfiBootServicesNotTerminated,
}

impl TagType {
    /// The number of the type in a tag header.
    pub open spec fn spec_value(self) -> u32 {
        match self {
            TagType::End => 0,
            TagType::MemInfo => 4,
            TagType::MemMap => 6,
            TagType::FrameBuffer => 8,
            TagType::ElfSymbols => 9,
            TagType::EfiBootServicesNotTerminated => 18,
        }
    }

    /// The number of the type in a tag header.
    pub fn value(&self) -> (r: u32)
        ensures
            r == self.spec_value(),
    {
        match self {
            TagType::End => 0,
            TagType::MemInfo => 4,
            TagType::MemMap => 6,
            TagType::FrameBuffer => 8,
            TagType::ElfSymbols => 9,
            TagType::EfiBootServicesNotTerminated => 18,
        }
    }
}

/// Why the boot information cannot be read.
#[derive(PartialEq, Eq, Structural, Clone, Copy, Debug)]
pub enum MbError {
    /// The address is null or not 8 byte aligned.
    IllegalAddr,
    /// The reserved header field is not 0.
    InvalidReserveValue,
}

/// The fixed part at the start of the boot information.
#[derive(Clone, Copy)]
pub struct MbInfoHeader {
    /// total size of boot information
    pub total_size: u32,
    /// always set to zero
    pub reserved: u32,
}

/// The header of a tag: its type and its size in bytes (header included).
#[derive(Clone, Copy)]
pub struct MbTagHeader {
    pub tag_type: u32,
    pub size: u32,
}

/// The basic memory information tag.
#[derive(Clone, Copy)]
pub struct MbMemInfo {
    pub header: MbTagHeader,
    pub mem_lower: u32,
    pub mem_upper: u32,
}

/// The offset of the tag after the one at `off` whose size is `size`: tags are 8 byte aligned.
pub open spec fn next_tag_offset(off: int, size: u32) -> int {
    off + ((size as int + 7) / 8) * 8
}

/// The tag at `off` of `tags` can be read and is followed by another place to look: its header lies in
/// the bytes, it is not the end tag, and it moves the walk forward.
pub open spec fn tag_readable(tags: Seq<u8>, off: int) -> bool {
    &&& 0 <= off
    &&& off + 8 <= tags.len()
    &&& le_u32(tags, off + 4) >= 1
}

/// The offset of the first tag of type `ty` from offset `off` on, walking the tags until the end tag or
/// the end of the bytes.
pub open spec fn find_tag(tags: Seq<u8>, off: int, ty: u32) -> Option<int>
    decreases tags.len() - off,
{
    if !tag_readable(tags, off) || le_u32(tags, off) == 0 {
        None
    } else if le_u32(tags, off) == ty {
        Some(off)
    } else if next_tag_offset(off, le_u32(tags, off + 4)) <= off || next_tag_offset(off, le_u32(tags, off + 4)) > tags.len() {
        None
    } else {
        find_tag(tags, next_tag_offset(off, le_u32(tags, off + 4)), ty)
    }
}

/// The memory information that the tag at `off` holds, if its fields lie in the bytes.
pub open spec fn mem_info_at(tags: Seq<u8>, off: int) -> Option<(u32, u32, u32, u32)> {
    if off + 16 <= tags.len() {
        Some((le_u32(tags, off), le_u32(tags, off + 4), le_u32(tags, off + 8), le_u32(tags, off + 12)))
    } else {
        None
    }
}

/// The framebuffer tag of `tags`: the first tag of type 8, if its fields lie in the bytes.
pub open spec fn fb_tag(tags: Seq<u8>) -> Option<FrameBufferInfo> {
    match find_tag(tags, 0, 8) {
        Some(o) => fb_info_at(tags, o),
        None => None,
    }
}

/// The little endian 64 bit value at `b[i..i + 8]`.
pub open spec fn le_u64(b: Seq<u8>, i: int) -> u64 {
    (le_u32(b, i) as int + le_u32(b, i + 4) as int * 0x1_0000_0000) as u64
}

/// The load address, size and flags of the ELF64 section header at `at`: `sh_addr` at offset 16,
/// `sh_size` at offset 32 and `sh_flags` at offset 8.
pub open spec fn elf_section_at(tags: Seq<u8>, at: int) -> (u64, u64, u64) {
    (le_u64(tags, at + 16), le_u64(tags, at + 32), le_u64(tags, at + 8))
}

/// The sections of the ELF symbols tag (type 9) of `tags`: after its header (type, size, number of
/// sections, size of a section header, index of the names section) come the section headers. `None`
/// when there is no such tag, or its headers are too short or do not lie in the bytes.
pub open spec fn elf_sections_of(tags: Seq<u8>) -> Option<Seq<(u64, u64, u64)>> {
    match find_tag(tags, 0, 9) {
        None => None,
        Some(o) => if o + 20 > tags.len() {
            None
        } else {
            let n = le_u32(tags, o + 8);
            let es = le_u32(tags, o + 12);
            if es < 40 || o + 20 + n * es > tags.len() {
                None
            } else {
                Some(Seq::new(n as nat, |k: int| elf_section_at(tags, o + 20 + k * es)))
            }
        },
    }
}

/// The memory map entry at `at`: base address, length, type and the reserved field.
pub open spec fn mem_map_entry_at(tags: Seq<u8>, at: int) -> MemoryMapEntry {
    MemoryMapEntry {
        base_addr: le_u64(tags, at),
        length: le_u64(tags, at + 8),
        entry_type: le_u32(tags, at + 16),
        reserved: le_u32(tags, at + 20),
    }
}

/// The entries of the memory map tag (type 6) of `tags`: after its header (type, size, size of an entry,
/// entry version) come `(size - 16) / entry size` entries. `None` when there is no such tag, or its
/// entries are too short or do not lie in the bytes.
pub open spec fn mem_map_of(tags: Seq<u8>) -> Option<Seq<MemoryMapEntry>> {
    match find_tag(tags, 0, 6) {
        None => None,
        Some(o) => if o + 16 > tags.len() {
            None
        } else {
            let size = le_u32(tags, o + 4);
            let es = le_u32(tags, o + 8);
            if es < 24 || size < 16 || o + size > tags.len() {
                None
            } else {
                let n = (size - 16) / es as int;
                Some(Seq::new(n as nat, |k: int| mem_map_entry_at(tags, o + 16 + k * es)))
            }
        },
    }
}

/// The little endian 64 bit value at `b[i..i + 8]`.
fn read_le_u64(b: &[u8], i: usize) -> (r: u64)
    requires
        i + 8 <= b@.len(),
    ensures
        r == le_u64(b@, i as int),
{
    let len = b.len();
    let lo = read_le_u32(b, i);
    let hi = read_le_u32(b, i + 4);
    lo as u64 + hi as u64 * 0x1_0000_0000
}

/// All the Multiboot2 info (that we support) given by the bootloader: the header and the bytes of the tags.
pub struct MbInfo {
    pub header: MbInfoHeader,
    tags: Vec<u8>,
}

/// Walks the tags of the boot information, one per call of [MbTagIter::next].
pub struct MbTagIter<'a> {
    pub current: usize,
    tags: &'a [u8],
}

impl<'a> MbTagIter<'a> {
    /// The bytes of the tags being walked.
    pub closed spec fn tags(&self) -> Seq<u8> {
        self.tags@
    }

    /// The offset of the current tag.
    pub closed spec fn pos(&self) -> int {
        self.current as int
    }

    /// A walk that starts at the offset `current` of `tags`.
    fn new(tags: &'a [u8], current: usize) -> (r: MbTagIter<'a>)
        ensures
            r.current == current,
            r.tags() == tags@,
    {
        MbTagIter { current, tags }
    }

    /// The header of the current tag, and the walk moves to the next tag; `None` at the end tag, or where
    /// no further tag can be read.
    pub fn next(&mut self) -> (r: Option<MbTagHeader>)
        ensures
            final(self).tags() == old(self).tags(),
            (!tag_readable(old(self).tags(), old(self).pos()) || le_u32(old(self).tags(), old(self).pos()) == 0)
                ==> r is None && final(self).pos() == old(self).pos(),
            (tag_readable(old(self).tags(), old(self).pos()) && le_u32(old(self).tags(), old(self).pos()) != 0)
                ==> (r matches Some(h) && h.tag_type == le_u32(old(self).tags(), old(self).pos()) && h.size == le_u32(
                old(self).tags(),
                old(self).pos() + 4,
            ) && (if next_tag_offset(old(self).pos(), h.size) <= usize::MAX {
                final(self).pos() == next_tag_offset(old(self).pos(), h.size)
            } else {
                final(self).pos() == old(self).pos()
            })),
    {
        let len = self.tags.len();
        if self.current > len || len - self.current < 8 {
            return None;
        }
        let tag_type = read_le_u32(self.tags, self.current);
        let size = read_le_u32(self.tags, self.current + 4);
        if size == 0 || tag_type == 0 {
            return None;
        }
        // return the current tag and get the next one
        let ptr_offset = (size as u64 + 7) / 8 * 8;
        if ptr_offset <= (usize::MAX - self.current) as u64 {
            self.current = self.current + ptr_offset as usize;
        }
        Some(MbTagHeader { tag_type, size })
    }
}

impl MbInfo {
    /// The header.
    pub closed spec fn header_v(&self) -> MbInfoHeader {
        self.header
    }

    /// The bytes of the tags.
    pub closed spec fn tags(&self) -> Seq<u8> {
        self.tags@
    }

    /// The boot information at `mb_boot_info_addr`, whose bytes are `bytes`: `IllegalAddr` for a null or
    /// unaligned address, `InvalidReserveValue` when the reserved header field is not 0.
    pub fn new(mb_boot_info_addr: u64, bytes: &[u8]) -> (r: Result<MbInfo, MbError>)
        requires
            bytes@.len() >= 8,
        ensures
            (mb_boot_info_addr == 0 || mb_boot_info_addr % 8 != 0) ==> r == Err::<MbInfo, MbError>(MbError::IllegalAddr),
            !(mb_boot_info_addr == 0 || mb_boot_info_addr % 8 != 0) && le_u32(bytes@, 4) != 0 ==> r == Err::<MbInfo, MbError>(
                MbError::InvalidReserveValue,
            ),
            !(mb_boot_info_addr == 0 || mb_boot_info_addr % 8 != 0) && le_u32(bytes@, 4) == 0 ==> (r matches Ok(info)
                && info.header_v().total_size == le_u32(bytes@, 0) && info.header_v().reserved == 0 && info.tags() == bytes@.subrange(
                8,
                bytes@.len() as int,
            )),
    {
        // check for null or unaligned pointer
        if mb_boot_info_addr == 0 || mb_boot_info_addr % 8 != 0 {
            return Err(MbError::IllegalAddr);
        }
        // check value that should be constant
        let header = MbInfoHeader { total_size: read_le_u32(bytes, 0), reserved: read_le_u32(bytes, 4) };
        if header.reserved != 0 {
            return Err(MbError::InvalidReserveValue);
        }
        let mut tags: Vec<u8> = Vec::new();
        let mut i: usize = 8;
        while i < bytes.len()
            invariant
                8 <= i <= bytes@.len(),
                tags@ == bytes@.subrange(8, i as int),
            decreases bytes@.len() - i,
        {
            tags.push(bytes[i]);
            i = i + 1;
        }
        Ok(MbInfo { header, tags })
    }

    /// A walk over the tags.
    fn tags_iter(&self) -> (r: MbTagIter<'_>)
        ensures
            r.current == 0,
            r.tags() == self.tags(),
    {
        MbTagIter::new(self.tags.as_slice(), 0)
    }

    /// The offset of the first tag of type `ty`.
    fn find(&self, ty: TagType) -> (r: Option<usize>)
        ensures
            r matches Some(o) ==> find_tag(self.tags(), 0, ty.spec_value()) == Some(o as int),
            r is None ==> find_tag(self.tags(), 0, ty.spec_value()) is None,
    {
        let want = ty.value();
        let mut it = self.tags_iter();
        loop
            invariant
                it.tags() == self.tags(),
                find_tag(self.tags(), 0, want) == find_tag(self.tags(), it.current as int, want),
                want == ty.spec_value(),
            decreases self.tags().len() - it.current,
        {
            let at = it.current;
            match it.next() {
                None => {
                    return None;
                },
                Some(tag) => {
                    if tag.tag_type == want {
                        return Some(at);
                    }
                    let len = self.tags.len();
                    if it.current <= at || it.current > len {
                        proof {
                            assert(len == self.tags().len());
                            let t = self.tags();
                            assert(tag_readable(t, at as int));
                            assert(le_u32(t, at as int) != want);
                            let nx = next_tag_offset(at as int, le_u32(t, at as int + 4));
                            assert(nx <= at || nx > t.len());
                            assert(find_tag(t, at as int, want) is None);
                        }
                        return None;
                    }
                },
            }
        }
    }

    /// The memory information of the tag at `off`, if its fields lie in the bytes.
    fn mem_info_at(&self, off: usize) -> (r: Option<MbMemInfo>)
        ensures
            r matches Some(m) ==> mem_info_at(self.tags(), off as int) == Some(
                (m.header.tag_type, m.header.size, m.mem_lower, m.mem_upper),
            ),
            r is None ==> mem_info_at(self.tags(), off as int) is None,
    {
        let t = self.tags.as_slice();
        if off > t.len() || t.len() - off < 16 {
            return None;
        }
        Some(
            MbMemInfo {
                header: MbTagHeader { tag_type: read_le_u32(t, off), size: read_le_u32(t, off + 4) },
                mem_lower: read_le_u32(t, off + 8),
                mem_upper: read_le_u32(t, off + 12),
            },
        )
    }

    /// The basic memory information tag, if there is one.
    pub fn basic_mem_info_tag(&self) -> (r: Option<MbMemInfo>)
        ensures
            r matches Some(m) ==> find_tag(self.tags(), 0, 4) matches Some(o) && mem_info_at(self.tags(), o) == Some(
                (m.header.tag_type, m.header.size, m.mem_lower, m.mem_upper),
            ),
            r is None ==> match find_tag(self.tags(), 0, 4) {
                Some(o) => mem_info_at(self.tags(), o) is None,
                None => true,
            },
    {
        match self.find(TagType::MemInfo) {
            Some(off) => self.mem_info_at(off),
            None => None,
        }
    }

    /// The memory map tag, if there is one, read as a [MbMemInfo].
    pub fn mem_map_tag(&self) -> (r: Option<MbMemInfo>)
        ensures
            r matches Some(m) ==> find_tag(self.tags(), 0, 6) matches Some(o) && mem_info_at(self.tags(), o) == Some(
                (m.header.tag_type, m.header.size, m.mem_lower, m.mem_upper),
            ),
            r is None ==> match find_tag(self.tags(), 0, 6) {
                Some(o) => mem_info_at(self.tags(), o) is None,
                None => true,
            },
    {
        match self.find(TagType::MemMap) {
            Some(off) => self.mem_info_at(off),
            None => None,
        }
    }

    /// The framebuffer information tag, if there is one.
    pub fn framebuffer_tag(&self) -> (r: Option<FrameBufferInfo>)
        ensures
            r == fb_tag(self.tags()),
    {
        match self.find(TagType::FrameBuffer) {
            Some(off) => read_fb_info(self.tags.as_slice(), off),
            None => None,
        }
    }

    /// The sections of the kernel ELF file that the ELF symbols tag lists, if there is such a tag and its
    /// section headers lie in the bytes.
    pub fn elf_sections(&self) -> (r: Option<Vec<ElfSection>>)
        ensures
            match elf_sections_of(self.tags()) {
                None => r is None,
                Some(secs) => r matches Some(v) && v@.len() == secs.len() && forall|k: int|
                    0 <= k < secs.len() ==> (#[trigger] v@[k])@ == secs[k],
            },
    {
        let o = match self.find(TagType::ElfSymbols) {
            Some(o) => o,
            None => {
                return None;
            },
        };
        let t = self.tags.as_slice();
        if o > t.len() || t.len() - o < 20 {
            return None;
        }
        let n = read_le_u32(t, o + 8);
        let es = read_le_u32(t, o + 12);
        if es < 40 {
            return None;
        }
        proof {
            assert(n * es <= 0xFFFF_FFFF * 0xFFFF_FFFF) by (nonlinear_arith)
                requires
                    n <= 0xFFFF_FFFF,
                    es <= 0xFFFF_FFFF,
            ;
        }
        let total: u64 = n as u64 * es as u64;
        let len = t.len();
        if total > (t.len() - o - 20) as u64 {
            return None;
        }
        let first = o + 20;
        let mut v: Vec<ElfSection> = Vec::new();
        let mut k: usize = 0;
        while k < n as usize
            invariant
                k <= n,
                first == o + 20,
                first + n * es <= t@.len(),
                len == t@.len(),
                es >= 40,
                t@ == self.tags(),
                v@.len() == k,
                forall|j: int| 0 <= j < k ==> (#[trigger] v@[j])@ == elf_section_at(t@, first + j * es),
            decreases n - k,
        {
            proof {
                assert(k * es + es <= n * es) by (nonlinear_arith)
                    requires
                        k < n,
                ;
                assert(k * es >= 0) by (nonlinear_arith);
            }
            let at = first + k * es as usize;
            let sh_flags = read_le_u64(t, at + 8);
            let sh_addr = read_le_u64(t, at + 16);
            let sh_size = read_le_u64(t, at + 32);
            v.push(ElfSection::new(sh_addr, sh_size, ElfSectionFlags::from_bits_retain(sh_flags)));
            k = k + 1;
        }
        proof {
            let secs = elf_sections_of(self.tags())->0;
            assert(secs.len() == n);
            assert forall|j: int| 0 <= j < secs.len() implies (#[trigger] v@[j])@ == secs[j] by {}
        }
        Some(v)
    }

    /// The entries of the memory map tag, if there is one and its entries lie in the bytes.
    pub fn memory_map_entries(&self) -> (r: Option<MemoryMapEntries>)
        ensures
            match mem_map_of(self.tags()) {
                None => r is None,
                Some(es) => r matches Some(m) && m.0@ == es,
            },
    {
        let o = match self.find(TagType::MemMap) {
            Some(o) => o,
            None => {
                return None;
            },
        };
        let t = self.tags.as_slice();
        let len = t.len();
        if o > len || len - o < 16 {
            return None;
        }
        let size = read_le_u32(t, o + 4);
        let es = read_le_u32(t, o + 8);
        if es < 24 || size < 16 || size as usize > len - o {
            return None;
        }
        let n: u32 = (size - 16) / es;
        proof {
            vstd::arithmetic::div_mod::lemma_fundamental_div_mod((size - 16) as int, es as int);
            assert(n * es <= size - 16) by (nonlinear_arith)
                requires
                    n == (size - 16) / es as int,
                    es > 0,
                    size >= 16,
                    (size - 16) == es * ((size - 16) / es as int) + (size - 16) % es as int,
                    (size - 16) % es as int >= 0,
            ;
        }
        let first = o + 16;
        let mut v: Vec<MemoryMapEntry> = Vec::new();
        let mut k: usize = 0;
        while k < n as usize
            invariant
                k <= n,
                first == o + 16,
                first + n * es <= t@.len(),
                len == t@.len(),
                es >= 24,
                t@ == self.tags(),
                v@ == Seq::new(k as nat, |j: int| mem_map_entry_at(t@, first + j * es)),
            decreases n - k,
        {
            proof {
                assert(k * es + es <= n * es) by (nonlinear_arith)
                    requires
                        k < n,
                ;
                assert(k * es >= 0) by (nonlinear_arith);
            }
            let at = first + k * es as usize;
            v.push(
                MemoryMapEntry {
                    base_addr: read_le_u64(t, at),
                    length: read_le_u64(t, at + 8),
                    entry_type: read_le_u32(t, at + 16),
                    reserved: read_le_u32(t, at + 20),
                },
            );
            k = k + 1;
            proof {
                assert(v@ =~= Seq::new(k as nat, |j: int| mem_map_entry_at(t@, first + j * es)));
            }
        }
        Some(MemoryMapEntries(v))
    }

    /// The boot information holds a tag of type `ty`.
    pub fn has_tag(&self, ty: TagType) -> (r: bool)
        ensures
            r == find_tag(self.tags(), 0, ty.spec_value()) is Some,
    {
        self.find(ty).is_some()
    }
}

} // verus!
