//! A fake timer whose clock is set by hand.
use vstd::prelude::*;

verus! {

/// A timer whose clock is set manually and whose armed deadline is
/// visible to tests. Advancing the clock past a deadline fires nothing.
pub struct FakeTimer {
    resolution_ns: u64,
    now_ns: u64,
    armed_deadline: Option<u64>,
    cancel_count: u64,
}

impl FakeTimer {
    /// The current clock reading.
    pub closed spec fn clock(&self) -> u64 {
        self.now_ns
    }

    /// The armed deadline, if any.
    pub closed spec fn deadline(&self) -> Option<u64> {
        self.armed_deadline
    }

    /// How often a deadline was cancelled.
    pub closed spec fn cancels(&self) -> u64 {
        self.cancel_count
    }

    /// The resolution reported.
    pub closed spec fn resolution(&self) -> u64 {
        self.resolution_ns
    }

    /// A timer at `now = 0`, with no deadline armed and the given
    /// resolution.
    pub fn new(resolution_ns: u64) -> (r: FakeTimer)
        ensures
            r.clock() == 0,
            r.deadline() is None,
            r.cancels() == 0,
            r.resolution() == resolution_ns,
    {
        FakeTimer { resolution_ns, now_ns: 0, armed_deadline: None, cancel_count: 0 }
    }

    /// Advance the clock by `delta_ns`, saturating at `u64::MAX`.
    pub fn advance(&mut self, delta_ns: u64)
        ensures
            final(self).clock() == (if old(self).clock() + delta_ns > u64::MAX {
                u64::MAX as int
            } else {
                old(self).clock() + delta_ns
            }),
            final(self).deadline() == old(self).deadline(),
            final(self).cancels() == old(self).cancels(),
            final(self).resolution() == old(self).resolution(),
    {
        self.now_ns = self.now_ns.saturating_add(delta_ns);
    }

    /// Set the clock to the absolute value `ns`.
    pub fn set_now(&mut self, ns: u64)
        ensures
            final(self).clock() == ns,
            final(self).deadline() == old(self).deadline(),
            final(self).cancels() == old(self).cancels(),
            final(self).resolution() == old(self).resolution(),
    {
        self.now_ns = ns;
    }

    /// The currently armed deadline, if any.
    pub fn armed_deadline(&self) -> (r: Option<u64>)
        ensures
            r == self.deadline(),
    {
        self.armed_deadline
    }

    /// How many times [`FakeTimer::cancel_deadline`] was called.
    pub fn cancel_count(&self) -> (r: u64)
        ensures
            r == self.cancels(),
    {
        self.cancel_count
    }

    /// The clock reading.
    pub fn now_ns(&self) -> (r: u64)
        ensures
            r == self.clock(),
    {
        self.now_ns
    }

    /// Arm a deadline, replacing any armed one.
    pub fn arm_deadline(&mut self, deadline_ns: u64)
        ensures
            final(self).deadline() == Some(deadline_ns),
            final(self).clock() == old(self).clock(),
            final(self).cancels() == old(self).cancels(),
            final(self).resolution() == old(self).resolution(),
    {
        self.armed_deadline = Some(deadline_ns);
    }

    /// Clear any armed deadline and count the call.
    pub fn cancel_deadline(&mut self)
        requires
            old(self).cancels() < u64::MAX,
        ensures
            final(self).deadline() is None,
            final(self).cancels() == old(self).cancels() + 1,
            final(self).clock() == old(self).clock(),
            final(self).resolution() == old(self).resolution(),
    {
        self.armed_deadline = None;
        self.cancel_count = self.cancel_count + 1;
    }

    /// The resolution given at construction.
    pub fn resolution_ns(&self) -> (r: u64)
        ensures
            r == self.resolution(),
    {
        self.resolution_ns
    }
}

impl Default for FakeTimer {
    /// A timer with 1 ns resolution at `now = 0`.
    fn default() -> (r: FakeTimer)
        ensures
            r.clock() == 0,
            r.deadline() is None,
            r.cancels() == 0,
            r.resolution() == 1,
    {
        FakeTimer::new(1)
    }
}

} // verus!
