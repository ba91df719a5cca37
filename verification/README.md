# baselib

The base library of a small kernel, verified with Verus: bit manipulation,
addresses and alignment, bitmaps, a memory pool, an ordered tree, a frame
allocator over address- and size-ordered trees, page-table walks, page
allocation, the ISAAC-64 generator, processor identification, the PL011
serial port, and the boot-time decisions: where the scratch area, the
genesis block and the frame allocator's storage go, and how the memory map
seeds the allocator.

Layout:

- `src/` — the verified library. Page-table walks (`vmem::walk`) and page
  allocation (`vmem::pagealloc`) are step machines: the library decides, the
  caller reads and writes memory and reports back.
- `tests/` — tests on concrete values, including a simulated physical memory
  that runs the walks end to end.
- `app/` — the machine side: volatile access to page tables and device
  registers, the processor-identification and entropy instructions,
  address-space switches, the boot path that writes the blocks the library
  places, and printing.
