pub mod bits;
pub mod bitmap;
pub mod bitmap_ref_mut;
