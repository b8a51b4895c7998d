//! A fake interrupt controller with injectable pending interrupts.
use vstd::prelude::*;

use crate::hal::irq_controller::IrqNumber;

verus! {

/// An interrupt controller whose enabled lines, pending interrupts and
/// end-of-interrupt history are plain state. Injection ignores whether a
/// line is enabled.
pub struct FakeIrqController {
    enabled: Vec<IrqNumber>,
    pending: Vec<IrqNumber>,
    eoi_history: Vec<IrqNumber>,
}

impl FakeIrqController {
    /// The enabled lines.
    pub closed spec fn enabled_lines(&self) -> Set<IrqNumber> {
        self.enabled@.to_set()
    }

    /// Injected interrupts not yet acknowledged, oldest first.
    pub closed spec fn pending_irqs(&self) -> Seq<IrqNumber> {
        self.pending@
    }

    /// Lines signalled end-of-interrupt, in order.
    pub closed spec fn eois(&self) -> Seq<IrqNumber> {
        self.eoi_history@
    }

    /// No line is recorded twice as enabled.
    pub closed spec fn wf(&self) -> bool {
        self.enabled@.no_duplicates()
    }

    /// A controller with nothing enabled, pending or acknowledged.
    pub fn new() -> (r: FakeIrqController)
        ensures
            r.wf(),
            r.enabled_lines() == Set::<IrqNumber>::empty(),
            r.pending_irqs() == Seq::<IrqNumber>::empty(),
            r.eois() == Seq::<IrqNumber>::empty(),
    {
        let r = FakeIrqController { enabled: Vec::new(), pending: Vec::new(), eoi_history: Vec::new() };
        assert(r.enabled_lines() =~= Set::<IrqNumber>::empty());
        r
    }

    /// Position of `irq` among the enabled lines.
    fn find_enabled(&self, irq: IrqNumber) -> (r: Option<usize>)
        ensures
            r is None <==> !self.enabled@.contains(irq),
            r matches Some(i) ==> i < self.enabled@.len() && self.enabled@[i as int] == irq,
    {
        let mut i: usize = 0;
        while i < self.enabled.len()
            invariant
                i <= self.enabled@.len(),
                forall|j: int| 0 <= j < i ==> self.enabled@[j] != irq,
            decreases self.enabled@.len() - i,
        {
            if self.enabled[i] == irq {
                return Some(i);
            }
            i = i + 1;
        }
        None
    }

    /// Queue `irq` as pending, behind any already pending.
    pub fn inject(&mut self, irq: IrqNumber)
        ensures
            final(self).pending_irqs() == old(self).pending_irqs().push(irq),
            final(self).wf() == old(self).wf(),
            final(self).enabled_lines() == old(self).enabled_lines(),
            final(self).eois() == old(self).eois(),
    {
        self.pending.push(irq);
    }

    /// Whether `irq` is enabled.
    pub fn is_enabled(&self, irq: IrqNumber) -> (r: bool)
        ensures
            r == self.enabled_lines().contains(irq),
    {
        self.find_enabled(irq).is_some()
    }

    /// Number of pending interrupts.
    pub fn pending_count(&self) -> (r: usize)
        ensures
            r == self.pending_irqs().len(),
    {
        self.pending.len()
    }

    /// A copy of the end-of-interrupt history.
    pub fn eoi_history(&self) -> (r: Vec<IrqNumber>)
        ensures
            r@ == self.eois(),
    {
        let mut out: Vec<IrqNumber> = Vec::new();
        let mut i: usize = 0;
        while i < self.eoi_history.len()
            invariant
                i <= self.eoi_history@.len(),
                out@ == self.eoi_history@.subrange(0, i as int),
            decreases self.eoi_history@.len() - i,
        {
            out.push(self.eoi_history[i]);
            i = i + 1;
            assert(self.eoi_history@.subrange(0, i as int) =~= self.eoi_history@.subrange(
                0,
                i - 1,
            ).push(self.eoi_history@[i - 1]));
        }
        assert(self.eoi_history@.subrange(0, self.eoi_history@.len() as int) =~= self.eoi_history@);
        out
    }

    /// Enable `irq`; enabling an enabled line changes nothing.
    pub fn enable(&mut self, irq: IrqNumber)
        requires
            old(self).wf(),
        ensures
            final(self).wf(),
            final(self).enabled_lines() == old(self).enabled_lines().insert(irq),
            final(self).pending_irqs() == old(self).pending_irqs(),
            final(self).eois() == old(self).eois(),
    {
        if self.find_enabled(irq).is_none() {
            self.enabled.push(irq);
            assert(self.enabled@.to_set() =~= old(self).enabled@.to_set().insert(irq)) by {
                assert forall|x: IrqNumber| #[trigger] self.enabled@.contains(x) <==> old(
                    self,
                ).enabled@.contains(x) || x == irq by {
                    if x == irq {
                        assert(self.enabled@[self.enabled@.len() - 1] == irq);
                    }
                    if old(self).enabled@.contains(x) {
                        let k = choose|k: int| 0 <= k < old(self).enabled@.len() && old(self).enabled@[k] == x;
                        assert(self.enabled@[k] == x);
                    }
                }
            }
        } else {
            assert(old(self).enabled@.to_set().insert(irq) =~= old(self).enabled@.to_set());
        }
    }

    /// Disable `irq`; disabling a disabled line changes nothing.
    pub fn disable(&mut self, irq: IrqNumber)
        requires
            old(self).wf(),
        ensures
            final(self).wf(),
            final(self).enabled_lines() == old(self).enabled_lines().remove(irq),
            final(self).pending_irqs() == old(self).pending_irqs(),
            final(self).eois() == old(self).eois(),
    {
        match self.find_enabled(irq) {
            Some(i) => {
                let ghost before = self.enabled@;
                self.enabled.remove(i);
                assert(self.enabled@ =~= before.remove(i as int));
                assert(self.enabled@.to_set() =~= before.to_set().remove(irq)) by {
                    assert forall|x: IrqNumber| #[trigger] self.enabled@.contains(x) <==> before.contains(
                        x,
                    ) && x != irq by {
                        if self.enabled@.contains(x) {
                            let k = choose|k: int| 0 <= k < self.enabled@.len() && self.enabled@[k] == x;
                            if k < i {
                                assert(before[k] == x);
                            } else {
                                assert(before[k + 1] == x);
                            }
                        }
                        if before.contains(x) && x != irq {
                            let k = choose|k: int| 0 <= k < before.len() && before[k] == x;
                            if k < i {
                                assert(self.enabled@[k] == x);
                            } else {
                                assert(k != i);
                                assert(self.enabled@[k - 1] == x);
                            }
                        }
                    }
                }
            },
            None => {
                assert(old(self).enabled@.to_set().remove(irq) =~= old(self).enabled@.to_set());
            },
        }
    }

    /// Take the oldest pending interrupt, or `None` when none is pending.
    pub fn acknowledge(&mut self) -> (r: Option<IrqNumber>)
        ensures
            r is None <==> old(self).pending_irqs().len() == 0,
            r is None ==> final(self).pending_irqs() == old(self).pending_irqs(),
            r matches Some(irq) ==> irq == old(self).pending_irqs()[0] && final(self).pending_irqs()
                == old(self).pending_irqs().drop_first(),
            final(self).wf() == old(self).wf(),
            final(self).enabled_lines() == old(self).enabled_lines(),
            final(self).eois() == old(self).eois(),
    {
        if self.pending.len() == 0 {
            return None;
        }
        let irq = self.pending.remove(0);
        assert(self.pending@ =~= old(self).pending@.drop_first());
        Some(irq)
    }

    /// Record end-of-interrupt for `irq`.
    pub fn end_of_interrupt(&mut self, irq: IrqNumber)
        ensures
            final(self).eois() == old(self).eois().push(irq),
            final(self).wf() == old(self).wf(),
            final(self).enabled_lines() == old(self).enabled_lines(),
            final(self).pending_irqs() == old(self).pending_irqs(),
    {
        self.eoi_history.push(irq);
    }
}

impl Default for FakeIrqController {
    fn default() -> (r: FakeIrqController)
        ensures
            r.wf(),
            r.enabled_lines() == Set::<IrqNumber>::empty(),
            r.pending_irqs() == Seq::<IrqNumber>::empty(),
            r.eois() == Seq::<IrqNumber>::empty(),
    {
        FakeIrqController::new()
    }
}

} // verus!
