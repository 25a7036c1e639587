//! A paging context that is not in use: just the frame of its P4 table.
use vstd::prelude::*;
use crate::memory::MemoryError;
use crate::memory::frames::{frame_fits, Frame, FrameAllocator};

verus! {

/// A paging context that is not loaded: its P4 table is only a frame, whose contents (an empty table
/// that maps itself through its last entry) are written through a temporary mapping.
pub struct InactivePagingContext {
    p4_frame: Frame,
}

impl InactivePagingContext {
    /// The frame of the P4 table.
    pub closed spec fn p4(&self) -> u64 {
        self.p4_frame@
    }

    /// Takes a frame from `fa` for the P4 table of a new paging context.
    pub fn new<A: FrameAllocator>(fa: &mut A) -> (r: Result<Self, MemoryError>)
        requires
            old(fa).ready(),
        ensures
            final(fa).ready(),
            r matches Ok(c) ==> !old(fa).in_use().contains(c.p4()) && final(fa).in_use() == old(fa).in_use().insert(c.p4())
                && frame_fits(c.p4()),
            r is Err ==> r == Err::<Self, MemoryError>(MemoryError::NotEnoughPhyMemory) && final(fa).in_use() == old(fa).in_use(),
            old(fa).can_hand_out(1) ==> r is Ok,
    {
        let p4_frame = fa.allocate_frame()?;
        Ok(InactivePagingContext { p4_frame })
    }

    /// The frame of the P4 table.
    pub fn p4_frame(&self) -> (r: Frame)
        ensures
            r@ == self.p4(),
    {
        self.p4_frame
    }
}

} // verus!
