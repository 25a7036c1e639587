//! The verified core of a small x86_64 kernel: bitmaps, physical frame and virtual
//! page bookkeeping, page table entries, descriptor tables and PC Screen Font parsing.
use vstd::prelude::*;

pub mod data_structures;
pub mod graphics;
pub mod interrupts;
pub mod kernel;
pub mod logger;
pub mod memory;
pub mod multiboot2;
