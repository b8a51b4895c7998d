# tyrne

The verified core of a small capability-based microkernel for aarch64,
written in Verus.

## Layout

- `src/cap` — capability rights, and the capability table with
  generation-tagged handles, an explicit derivation tree and cascading
  revocation.
- `src/obj` — fixed-capacity arenas with generation-tagged slot ids, and
  the task, endpoint and notification kernel objects.
- `src/ipc` — rendezvous send / receive on endpoints with capability
  transfer, and notification signalling.
- `src/sched` — the cooperative scheduler's ready queue and bookkeeping;
  each operation returns the context switch the board has to perform.
- `src/hal` — the hardware-interface traits, address and mapping-flag
  types, and tick / nanosecond conversions.
- `src/test_hal` — deterministic fakes of the console, CPU, interrupt
  controller and timer. They record their effects in plain state and take
  `&mut self`, so they offer the interfaces' operations as their own
  methods rather than implementing the `hal` traits.
- `src/gic`, `src/trap` — register arithmetic of the QEMU `virt` interrupt
  controller, and the classification of fatal exceptions.
- `app` — the board support for QEMU `virt` (assembly, MMIO, context
  switching, boot) and the bridge that performs the switches the
  scheduler asks for; on other targets it walks through the boot flow on
  the host.
- `tests` — unit and scenario tests of the library.

The library keeps its tables in `Vec`s, so an image built from it needs a
global allocator; the board support provides a bump allocator over a
static heap.
