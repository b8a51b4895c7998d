//! CPU-core identity and interrupt masking.
use vstd::prelude::*;

verus! {

/// Identifier of a CPU core.
pub type CoreId = u32;

/// Opaque saved interrupt-mask state, as returned by
/// [`Cpu::disable_irqs`] and consumed by [`Cpu::restore_irq_state`].
#[derive(Copy, Clone, Debug, PartialEq, Eq, Structural)]
pub struct IrqState(pub usize);

/// Per-core CPU operations: identity, interrupt masking, idling and
/// barriers.
pub trait Cpu: Send + Sync {
    /// The identifier of the core this runs on.
    fn current_core_id(&self) -> CoreId;

    /// Mask interrupts and return the previous mask state.
    fn disable_irqs(&self) -> IrqState;

    /// Restore a mask state returned by [`Cpu::disable_irqs`].
    fn restore_irq_state(&self, state: IrqState);

    /// Idle until an interrupt arrives.
    fn wait_for_interrupt(&self);

    /// Instruction synchronisation barrier.
    fn instruction_barrier(&self);
}

/// The exception level encoded in a `CurrentEL` register value (its
/// bits 2 and 3).
pub fn exception_level(current_el_raw: u64) -> (r: u8)
    ensures
        r == (current_el_raw >> 2) & 3,
{
    let el = (current_el_raw >> 2) & 0b11;
    assert(el < 4) by (bit_vector)
        requires
            el == (current_el_raw >> 2) & 3,
    ;
    el as u8
}

} // verus!
