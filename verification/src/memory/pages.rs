//! Virtual pages, their page table indexes and the page allocators.
use vstd::prelude::*;
use crate::memory::{MemoryError, VirtualAddress, FRAME_PAGE_SIZE};

pub mod page_table;
pub mod paging;
pub mod simple_page_allocator;
pub mod temporary_page_allocator;
pub mod global_page_allocator;

verus! {

/// In x86_64 the top 16 bits of a virtual address must be copies of bit 47.
pub open spec fn is_canonical(addr: u64) -> bool {
    addr < 0x0000_8000_0000_0000 || addr >= 0xffff_8000_0000_0000
}

/// A virtual page; the number is the page index in the virtual memory.
#[derive(Clone, Copy)]
pub struct Page(u64);

impl View for Page {
    type V = u64;

    /// The page index.
    closed spec fn view(&self) -> u64 {
        self.0
    }
}

/* ----------------- SOME NOTES ON PAGE TABLE INDEX CALCULATION -----------------
 * Let´s assume this address: 0xdeadbeef, with 4KiB pages (12 bits)
 * The calculated page index is: 912091 (0xdeadbeef / PAGE_SIZE)
 *
 * Page table indexes to translate the addr:
 * 0xdeadbeef:
 *  p4_idx   -> 0    (0xdeadbeef >> 39 & 0o777)
 *  p3_idx   -> 3    (0xdeadbeef >> 30 & 0o777)
 *  p2_idx   -> 245  (0xdeadbeef >> 21 & 0o777)
 *  p1_idx   -> 219  (0xdeadbeef >> 12 & 0o777)
 *  page_idx -> 239  (0xdeadbeef & 0o777)
 *
 * To calculate the table indexes but with the page index instead:
 * idx:
 *  p4_idx   -> 0    (912091 >> (39 - 12) & 0o777)
 *  p3_idx   -> 3    (912091 >> (30 - 12) & 0o777)
 *  p2_idx   -> 245  (912091 >> (21 - 12) & 0o777)
 *  p1_idx   -> 219  (912091 >> (12 - 12) & 0o777)
 *
 * We need to subtract 12 because the page index is 4096 (4KiB) times smaller than the original addr.
 */
impl Page {
    #[verifier::type_invariant]
    spec fn inv(self) -> bool {
        &&& self.0 <= u64::MAX / (FRAME_PAGE_SIZE as u64)
        &&& is_canonical((self.0 * FRAME_PAGE_SIZE) as u64)
    }

    /// The page that holds `addr`, or `PageInvalidVirtualAddress` for a non canonical address.
    pub fn from_virt_addr(addr: VirtualAddress) -> (r: Result<Page, MemoryError>)
        ensures
            is_canonical(addr) <==> r is Ok,
            r matches Ok(p) ==> p@ == addr / FRAME_PAGE_SIZE,
            r matches Err(e) ==> e == MemoryError::PageInvalidVirtualAddress,
    {
        // in x86_64, the top 16 bits of a virtual addr must be sign extension bits. if they are not, its an invalid addr
        if addr >= 0x0000_8000_0000_0000 && addr < 0xffff_8000_0000_0000 {
            return Err(MemoryError::PageInvalidVirtualAddress);
        }
        proof {
            let q = addr / FRAME_PAGE_SIZE;
            vstd::arithmetic::div_mod::lemma_fundamental_div_mod(addr as int, FRAME_PAGE_SIZE as int);
            vstd::arithmetic::div_mod::lemma_div_is_ordered(addr as int, u64::MAX as int, FRAME_PAGE_SIZE as int);
            assert(q * FRAME_PAGE_SIZE == addr - addr % FRAME_PAGE_SIZE) by (nonlinear_arith)
                requires
                    addr == FRAME_PAGE_SIZE * q + addr % FRAME_PAGE_SIZE,
            ;
        }
        Ok(Page(addr / FRAME_PAGE_SIZE))
    }

    /// The virtual address of the first byte of the page.
    pub fn addr(&self) -> (r: VirtualAddress)
        ensures
            r == self@ * FRAME_PAGE_SIZE,
            is_canonical(r),
    {
        proof {
            use_type_invariant(self);
            assert(self.0 * FRAME_PAGE_SIZE <= u64::MAX) by (nonlinear_arith)
                requires
                    self.0 <= u64::MAX / (FRAME_PAGE_SIZE as u64),
            ;
        }
        self.0 * FRAME_PAGE_SIZE
    }

    /// Index into the P4 table.
    pub fn p4_index(&self) -> (r: usize)
        ensures
            r == (self@ / 0x800_0000) % 512,
    {
        let x = self.0;
        assert((x >> 27u64) & 0o777 == (x / 0x800_0000) % 512) by (bit_vector);
        ((x >> 27u64) & 0o777) as usize
    }

    /// Index into the P3 table.
    pub fn p3_index(&self) -> (r: usize)
        ensures
            r == (self@ / 0x4_0000) % 512,
    {
        let x = self.0;
        assert((x >> 18u64) & 0o777 == (x / 0x4_0000) % 512) by (bit_vector);
        ((x >> 18u64) & 0o777) as usize
    }

    /// Index into the P2 table.
    pub fn p2_index(&self) -> (r: usize)
        ensures
            r == (self@ / 0x200) % 512,
    {
        let x = self.0;
        assert((x >> 9u64) & 0o777 == (x / 0x200) % 512) by (bit_vector);
        ((x >> 9u64) & 0o777) as usize
    }

    /// Index into the P1 table.
    pub fn p1_index(&self) -> (r: usize)
        ensures
            r == self@ % 512,
    {
        let x = self.0;
        assert(x & 0o777 == x % 512) by (bit_vector);
        (x & 0o777) as usize
    }
}

/// The four table indexes of a page, read together, are the low 36 bits of its index.
pub proof fn lemma_page_indexes_compose(p: Page)
    ensures
        ((p@ / 0x800_0000) % 512) * 0x800_0000 + ((p@ / 0x4_0000) % 512) * 0x4_0000 + ((p@ / 0x200)
            % 512) * 0x200 + p@ % 512 == p@ % 0x10_0000_0000,
{
    let x = p@;
    assert(((x / 0x800_0000) % 512) * 0x800_0000 + ((x / 0x4_0000) % 512) * 0x4_0000 + ((x / 0x200)
        % 512) * 0x200 + x % 512 == x % 0x10_0000_0000) by (bit_vector);
}

/// Going from a page to its address and back gives the page again.
pub proof fn lemma_page_addr_roundtrip(p: Page)
    ensures
        (p@ * FRAME_PAGE_SIZE) / FRAME_PAGE_SIZE as int == p@,
{
    vstd::arithmetic::div_mod::lemma_div_multiples_vanish(p@ as int, FRAME_PAGE_SIZE as int);
}

} // verus!
