//! A fake CPU that records interrupt masking, idling and barriers.
use vstd::prelude::*;

use crate::hal::cpu::{CoreId, IrqState};

verus! {

/// A CPU whose interrupt mask and wait / barrier counts are plain state.
pub struct FakeCpu {
    core_id: CoreId,
    irqs_enabled: bool,
    wait_for_interrupt_count: u64,
    instruction_barrier_count: u64,
}

impl FakeCpu {
    /// The core identifier reported.
    pub closed spec fn core_number(&self) -> CoreId {
        self.core_id
    }

    /// Whether interrupts are unmasked.
    pub closed spec fn enabled(&self) -> bool {
        self.irqs_enabled
    }

    /// How often the CPU idled waiting for an interrupt.
    pub closed spec fn waits(&self) -> u64 {
        self.wait_for_interrupt_count
    }

    /// How many instruction barriers were issued.
    pub closed spec fn barriers(&self) -> u64 {
        self.instruction_barrier_count
    }

    /// A CPU on core 0 with interrupts enabled and zero counts.
    pub fn new() -> (r: FakeCpu)
        ensures
            r.core_number() == 0,
            r.enabled(),
            r.waits() == 0,
            r.barriers() == 0,
    {
        FakeCpu::with_core_id(0)
    }

    /// A CPU on core `core_id` with interrupts enabled and zero counts.
    pub fn with_core_id(core_id: CoreId) -> (r: FakeCpu)
        ensures
            r.core_number() == core_id,
            r.enabled(),
            r.waits() == 0,
            r.barriers() == 0,
    {
        FakeCpu {
            core_id,
            irqs_enabled: true,
            wait_for_interrupt_count: 0,
            instruction_barrier_count: 0,
        }
    }

    /// Whether interrupts are currently enabled.
    pub fn irqs_enabled(&self) -> (r: bool)
        ensures
            r == self.enabled(),
    {
        self.irqs_enabled
    }

    /// How many times [`FakeCpu::wait_for_interrupt`] was called.
    pub fn wait_for_interrupt_count(&self) -> (r: u64)
        ensures
            r == self.waits(),
    {
        self.wait_for_interrupt_count
    }

    /// How many times [`FakeCpu::instruction_barrier`] was called.
    pub fn instruction_barrier_count(&self) -> (r: u64)
        ensures
            r == self.barriers(),
    {
        self.instruction_barrier_count
    }

    /// The core identifier.
    pub fn current_core_id(&self) -> (r: CoreId)
        ensures
            r == self.core_number(),
    {
        self.core_id
    }

    /// Mask interrupts and return the previous state: `IrqState(1)` when
    /// they were enabled, `IrqState(0)` otherwise.
    pub fn disable_irqs(&mut self) -> (r: IrqState)
        ensures
            r.0 == (if old(self).enabled() {
                1usize
            } else {
                0usize
            }),
            !final(self).enabled(),
            final(self).core_number() == old(self).core_number(),
            final(self).waits() == old(self).waits(),
            final(self).barriers() == old(self).barriers(),
    {
        let prev = IrqState(if self.irqs_enabled {
            1
        } else {
            0
        });
        self.irqs_enabled = false;
        prev
    }

    /// Restore a saved state: interrupts are enabled exactly when the
    /// state is non-zero.
    pub fn restore_irq_state(&mut self, state: IrqState)
        ensures
            final(self).enabled() == (state.0 != 0),
            final(self).core_number() == old(self).core_number(),
            final(self).waits() == old(self).waits(),
            final(self).barriers() == old(self).barriers(),
    {
        self.irqs_enabled = state.0 != 0;
    }

    /// Count one wait for an interrupt.
    pub fn wait_for_interrupt(&mut self)
        requires
            old(self).waits() < u64::MAX,
        ensures
            final(self).waits() == old(self).waits() + 1,
            final(self).enabled() == old(self).enabled(),
            final(self).core_number() == old(self).core_number(),
            final(self).barriers() == old(self).barriers(),
    {
        self.wait_for_interrupt_count = self.wait_for_interrupt_count + 1;
    }

    /// Count one instruction barrier.
    pub fn instruction_barrier(&mut self)
        requires
            old(self).barriers() < u64::MAX,
        ensures
            final(self).barriers() == old(self).barriers() + 1,
            final(self).enabled() == old(self).enabled(),
            final(self).core_number() == old(self).core_number(),
            final(self).waits() == old(self).waits(),
    {
        self.instruction_barrier_count = self.instruction_barrier_count + 1;
    }
}

/// Masking and then restoring the returned state gives back the mask
/// state the CPU had before.
pub proof fn lemma_restore_undoes_disable(before: FakeCpu, masked: FakeCpu, after: FakeCpu, saved: IrqState)
    requires
        saved.0 == (if before.enabled() {
            1usize
        } else {
            0usize
        }),
        after.enabled() == (saved.0 != 0),
    ensures
        after.enabled() == before.enabled(),
{
}

impl Default for FakeCpu {
    fn default() -> (r: FakeCpu)
        ensures
            r.core_number() == 0,
            r.enabled(),
            r.waits() == 0,
            r.barriers() == 0,
    {
        FakeCpu::new()
    }
}

} // verus!
