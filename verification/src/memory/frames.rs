//! Physical frames and the frame allocators.
use vstd::prelude::*;
use crate::memory::{MemoryError, PhysicalAddress, FRAME_PAGE_SIZE};

pub mod bitmap_frame_allocator;
pub mod simple_frame_allocator;

verus! {

/// A physical frame; the number is the frame index in the physical memory.
#[derive(PartialEq, Eq, Structural, PartialOrd, Ord, Clone, Copy, Debug)]
pub struct Frame(u64);

impl View for Frame {
    type V = u64;

    /// The frame index.
    closed spec fn view(&self) -> u64 {
        self.0
    }
}

impl Frame {
    #[verifier::type_invariant]
    spec fn inv(self) -> bool {
        self.0 <= u64::MAX / (FRAME_PAGE_SIZE as u64)
    }

    /// The frame that holds the physical address `addr`.
    pub fn from_phy_addr(addr: PhysicalAddress) -> (r: Frame)
        ensures
            r@ == addr / FRAME_PAGE_SIZE,
    {
        proof {
            vstd::arithmetic::div_mod::lemma_div_is_ordered(addr as int, u64::MAX as int, FRAME_PAGE_SIZE as int);
        }
        Frame(addr / FRAME_PAGE_SIZE)
    }

    /// The physical address of the first byte of the frame.
    pub fn addr(&self) -> (r: PhysicalAddress)
        ensures
            r == self@ * FRAME_PAGE_SIZE,
    {
        proof {
            use_type_invariant(self);
            assert(self.0 * FRAME_PAGE_SIZE <= u64::MAX) by (nonlinear_arith)
                requires
                    self.0 <= u64::MAX / (FRAME_PAGE_SIZE as u64),
            ;
        }
        self.0 * FRAME_PAGE_SIZE
    }
}

/// A frame whose address fits in the 52 bits of physical address of x86_64.
pub open spec fn frame_fits(f: u64) -> bool {
    f < 0x100_0000_0000
}

/// The public interface of a frame allocator, as the page tables use it.
pub trait FrameAllocator {
    /// The allocator is initialized and consistent.
    spec fn ready(&self) -> bool;

    /// The frames (by index) that are handed out.
    spec fn in_use(&self) -> Set<u64>;

    /// The next `k` calls of [FrameAllocator::allocate_frame] hand out a frame.
    spec fn can_hand_out(&self, k: nat) -> bool;

    /// An allocator that can hand out `k + 1` frames can hand out `k`.
    proof fn lemma_can_hand_out_fewer(&self, k: nat)
        requires
            self.can_hand_out(k + 1),
        ensures
            self.can_hand_out(k),
    ;

    /// Allocate a frame that was not in use.
    fn allocate_frame(&mut self) -> (r: Result<Frame, MemoryError>)
        requires
            old(self).ready(),
        ensures
            final(self).ready(),
            r matches Ok(f) ==> !old(self).in_use().contains(f@) && final(self).in_use() == old(self).in_use().insert(f@)
                && frame_fits(f@),
            r is Err ==> r == Err::<Frame, MemoryError>(MemoryError::NotEnoughPhyMemory) && final(self).in_use() == old(self).in_use(),
            old(self).can_hand_out(1) ==> r is Ok,
            forall|k: nat| old(self).can_hand_out(k + 1) ==> #[trigger] final(self).can_hand_out(k),
    ;

    /// Give back `frame`, which must be in use.
    fn deallocate_frame(&mut self, frame: Frame)
        requires
            old(self).ready(),
            old(self).in_use().contains(frame@),
        ensures
            final(self).ready(),
            final(self).in_use() == old(self).in_use().remove(frame@),
    ;
}

/// An allocator that can hand out `a` frames can hand out any fewer.
pub proof fn lemma_can_hand_out_le<A: FrameAllocator>(fa: &A, a: nat, b: nat)
    requires
        fa.can_hand_out(a),
        b <= a,
    ensures
        fa.can_hand_out(b),
    decreases a - b,
{
    if b < a {
        fa.lemma_can_hand_out_fewer((a - 1) as nat);
        lemma_can_hand_out_le(fa, (a - 1) as nat, b);
    }
}

/// The frame of a frame's address is the frame itself.
pub proof fn lemma_frame_addr_roundtrip(f: Frame)
    ensures
        (f@ * FRAME_PAGE_SIZE) / FRAME_PAGE_SIZE as int == f@,
{
    vstd::arithmetic::div_mod::lemma_div_multiples_vanish(f@ as int, FRAME_PAGE_SIZE as int);
}

} // verus!
