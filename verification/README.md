# ross_os

The decision-making core of a small aarch64 hobby kernel (QEMU `virt`),
written in Verus and verified: the framebuffer drawing routines and the fw_cfg
ramfb setup, the bump frame allocator, the MMU identity map, GIC and timer
setup and the IRQ decision, the IRQ-masked critical sections, the round-robin
scheduler, and the UART's byte translation.

Layout:

- `src/` — the verified library, one module per kernel subsystem (`fb`,
  `memory`, `mmu`, `interrupts`, `sync`, `task`, `uart`, `heap`, `demo`).
  Hardware state (registers, DAIF, scanout memory) enters as plain values,
  and each function's contract says exactly what it computes or changes.
- `app/` — the kernel binary around the library: boot flow, `asm!` register
  accesses, MMIO, the global allocator (`linked_list_allocator`), the context
  switch and the 8x8 font (`font8x8`).
- `tests/` — tests of the library on concrete values.
