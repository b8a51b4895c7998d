//! Verified core of a capability-based microkernel: capability rights and
//! tables, kernel-object arenas, IPC rendezvous state, the cooperative
//! scheduler's bookkeeping, the hardware-interface traits with their
//! portable types and tick/nanosecond arithmetic, deterministic fakes of
//! those interfaces, and the register arithmetic of the board's
//! interrupt controller.
#![allow(unused_imports)]

pub mod cap;
pub mod gic;
pub mod hal;
pub mod ipc;
pub mod obj;
pub mod sched;
pub mod test_hal;
pub mod trap;
