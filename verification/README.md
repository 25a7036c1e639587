# rsos

The core of a small x86_64 kernel, written in Verus: the logic that a kernel needs before it can print
a line on the screen, each function with a contract that Verus proves.

## Layout

- `src/` is the verified library.
  - `data_structures`: bit helpers and bitmaps over owned or borrowed bytes.
  - `multiboot2`: reading the boot information (basic memory, memory map, ELF sections, framebuffer).
  - `kernel`: where the kernel and the boot information lie, the checks made on them at boot, and the
    memory ranges no allocator may hand out.
  - `memory`: frames and pages, the frame allocators, the four level page tables of a paging context
    (held as owned values: the library computes every entry, frame and flags, and the binary writes the
    tables into the frames that the processor reads), the page allocators (a temporary one for the first
    stage of the boot, a two level bitmap one for the higher half, whose bitmaps the allocator holds
    itself), the higher half remapping and the heap allocator.
  - `graphics`: the framebuffer, PSF1 and PSF2 fonts with their unicode tables, the font renderer and
    the kernel logger.
  - `interrupts`: the GDT, the TSS and the IDT as values.
  - `logger`: the `[  OK  ]`, `[ WARN ]` and `[FAILED]` status lines.
- `tests/` runs the library on concrete values.
- `app/` is the kernel binary around the library: the I/O ports, control registers, writing the page
  tables to memory, loading the descriptor tables, the kernel heap and the boot sequence itself.

The only outside crate that the library calls is `blake3`, to hash the boot information before the
higher half remapping and compare after it. The binary uses `spin` for its global locks.
