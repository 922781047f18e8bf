//! Process identifiers.
//!
//! Pids are 16-bit, handed out by a monotonic counter that starts at 2 (pid 1
//! is reserved for the kernel) and never recycles a value.

use vstd::prelude::*;

verus! {

/// A process identifier.
#[derive(Clone, Copy, PartialEq, Eq, Structural, Debug, Hash)]
pub struct ProcessId(pub u16);

/// The monotonic pid counter; the process manager owns it.
pub struct PidAllocator {
    pub next: u16,
}

impl PidAllocator {
    pub open spec fn spec_next(self) -> u16 {
        self.next
    }

    /// Counter poised to hand out the first user pid.
    pub fn start() -> (a: PidAllocator)
        ensures
            a.spec_next() == 2,
    {
        PidAllocator { next: 2 }
    }

    /// The next pid; each value is returned at most once.
    pub fn fresh(&mut self) -> (p: Option<ProcessId>)
        ensures
            old(self).next < u16::MAX ==> (p == Some(ProcessId(old(self).next))
                && final(self).next == old(self).next + 1),
            old(self).next == u16::MAX ==> (p is None && *final(self) == *old(self)),
            final(self).next >= old(self).next,
    {
        if self.next < u16::MAX {
            let p = ProcessId(self.next);
            self.next = self.next + 1;
            Some(p)
        } else {
            None
        }
    }
}

} // verus!
