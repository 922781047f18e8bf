//! Model of the physical frame allocator.
//!
//! The kernel's collaborator hands out 4 KiB frames and takes them back; the
//! process subsystem only ever observes how many frames are left. The model
//! therefore keeps the current free count together with the initial total, so
//! that contracts can state the conservation law: frames are neither created
//! nor lost, only moved between the free pool and page mappings.

use vstd::prelude::*;

verus! {

/// A counting model of the boot-time physical frame allocator.
pub struct FrameAllocator {
    /// Frames currently available.
    pub free: u64,
    /// Frames the allocator was created with; never changes.
    pub total: u64,
}

impl FrameAllocator {
    pub open spec fn wf(self) -> bool {
        self.free <= self.total
    }

    /// A fresh allocator owning `free` frames.
    pub fn new(free: u64) -> (a: FrameAllocator)
        ensures
            a.free == free,
            a.total == free,
            a.wf(),
    {
        FrameAllocator { free, total: free }
    }

    /// Take `n` frames out of the pool; fails (and changes nothing) when
    /// fewer than `n` are left.
    pub fn allocate(&mut self, n: u64) -> (ok: bool)
        ensures
            final(self).total == old(self).total,
            ok == (old(self).free >= n),
            ok ==> final(self).free == old(self).free - n,
            !ok ==> *final(self) == *old(self),
    {
        if self.free >= n {
            self.free = self.free - n;
            true
        } else {
            false
        }
    }

    /// Return `n` frames to the pool.
    pub fn release(&mut self, n: u64)
        requires
            old(self).free + n <= old(self).total,
        ensures
            final(self).total == old(self).total,
            final(self).free == old(self).free + n,
    {
        self.free = self.free + n;
    }
}

} // verus!
