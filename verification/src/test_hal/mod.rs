//! Deterministic fakes of the console, CPU, interrupt controller and
//! timer, for host-side tests of kernel logic: every effect a real device
//! would have is recorded in plain state that tests can inspect. The fakes
//! mutate through `&mut self`, so they provide the interfaces' operations
//! as methods of their own instead of implementing the `hal` traits.
use vstd::prelude::*;

pub mod console;
pub mod cpu;
pub mod irq_controller;
pub mod timer;

pub use console::FakeConsole;
pub use cpu::FakeCpu;
pub use irq_controller::FakeIrqController;
pub use timer::FakeTimer;

verus! {

} // verus!
