//! Interrupt controller dispatch and control.
use vstd::prelude::*;

verus! {

/// A hardware interrupt line number.
#[derive(Copy, Clone, Debug, PartialEq, Eq, Structural, Hash)]
pub struct IrqNumber(pub u32);

/// Interrupt controller operations: enable and disable a line,
/// acknowledge the pending interrupt (`None` when spurious), and signal
/// end-of-interrupt with the number `acknowledge` returned.
pub trait IrqController: Send + Sync {
    /// Enable delivery of the given interrupt line.
    fn enable(&self, irq: IrqNumber);

    /// Suppress delivery of the given interrupt line.
    fn disable(&self, irq: IrqNumber);

    /// Acknowledge the currently-pending interrupt.
    fn acknowledge(&self) -> Option<IrqNumber>;

    /// Signal end-of-interrupt for the given line.
    fn end_of_interrupt(&self, irq: IrqNumber);
}

} // verus!
