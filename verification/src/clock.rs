//! The timer tick counter.
//!
//! On hardware the timer interrupt updates this in a static; the model
//! owns it as a value.

use vstd::prelude::*;

verus! {

/// Count of timer ticks seen since boot.
pub struct ClockCounter {
    pub ticks: u64,
}

impl ClockCounter {
    pub open spec fn spec_ticks(self) -> u64 {
        self.ticks
    }

    pub fn start() -> (c: ClockCounter)
        ensures
            c.spec_ticks() == 0,
    {
        ClockCounter { ticks: 0 }
    }
}

/// Current counter value.
pub fn read_counter(counter: &ClockCounter) -> (r: u64)
    ensures
        r == counter.spec_ticks(),
{
    counter.ticks
}

/// Advance the counter by one tick and return the value it had before.
pub fn inc_counter(counter: &mut ClockCounter) -> (r: u64)
    requires
        old(counter).spec_ticks() < u64::MAX,
    ensures
        final(counter).spec_ticks() == old(counter).spec_ticks() + 1,
        r == old(counter).spec_ticks(),
{
    let r = counter.ticks;
    counter.ticks = counter.ticks + 1;
    r
}

} // verus!
