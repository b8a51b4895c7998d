//! Hardware abstraction: the traits a board support package implements,
//! and the portable types and arithmetic that go with them.
use vstd::prelude::*;

pub mod console;
pub mod cpu;
pub mod irq_controller;
pub mod mmu;
pub mod timer;

pub use console::Console;
pub use cpu::{CoreId, Cpu, IrqState};
pub use irq_controller::{IrqController, IrqNumber};
pub use mmu::{FrameProvider, MappingFlags, MmuError, PhysAddr, PhysFrame, VirtAddr, PAGE_SIZE};
pub use timer::{ns_to_ticks, resolution_ns_for_freq, ticks_to_ns, Timer, NANOS_PER_SECOND};

verus! {

/// An IOMMU implementation; it has no operations yet.
pub trait Iommu {}

} // verus!
