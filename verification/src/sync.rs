//! User-side synchronisation: the spin lock and the semaphore handle a
//! program links against.
//!
//! The spin lock's hardware exchange loop never returns while the lock is
//! held elsewhere; in this sequential model acquiring requires the lock to be
//! free. The semaphore handle just carries its key; its methods are the
//! corresponding kernel calls.

use vstd::prelude::*;

use crate::context::ProcessContext;
use crate::manager::ProcessManager;
use crate::procs;
use crate::semaphore::SemaphoreResult;
use crate::semaphore::spec_get;

verus! {

/// A test-and-set lock.
pub struct SpinLock {
    pub bolt: bool,
}

impl SpinLock {
    /// An open lock.
    pub fn new() -> (l: SpinLock)
        ensures
            !l.bolt,
    {
        SpinLock { bolt: false }
    }

    /// Take the lock. On hardware this spins until the exchange succeeds;
    /// with a single thread that means the lock must be free.
    pub fn acquire(&mut self)
        requires
            !old(self).bolt,
        ensures
            final(self).bolt,
    {
        self.bolt = true;
    }

    /// Release the lock.
    pub fn release(&mut self)
        ensures
            !final(self).bolt,
    {
        self.bolt = false;
    }
}

/// A program's handle to the kernel semaphore under `key`. Each method is a
/// syscall; the model passes the kernel state explicitly.
#[derive(Clone, Copy, PartialEq, Eq, Structural, Debug)]
pub struct Semaphore {
    pub key: u32,
}

impl Semaphore {
    pub fn new(key: u32) -> (s: Semaphore)
        ensures
            s.key == key,
    {
        Semaphore { key }
    }

    /// Create the semaphore with `value` permits; true on success, and then
    /// the key holds `value` permits with no waiter. An existing key leaves
    /// the manager untouched.
    pub fn init(&self, m: &mut ProcessManager, value: usize) -> (r: bool)
        requires
            old(m).wf(),
        ensures
            final(m).wf(),
            r <==> spec_get(old(m).semaphores.sems@, self.key) is None,
            r ==> spec_get(final(m).semaphores.sems@, self.key) == Some(
                crate::semaphore::SemModel {
                    count: value as int,
                    waiters: Seq::<crate::pid::ProcessId>::empty(),
                },
            ),
            !r ==> *final(m) == *old(m),
            final(m).processes@ == old(m).processes@,
            final(m).ready_queue == old(m).ready_queue,
            final(m).current == old(m).current,
            forall|k: u32|
                k != self.key ==> #[trigger] spec_get(final(m).semaphores.sems@, k) == spec_get(
                    old(m).semaphores.sems@,
                    k,
                ),
    {
        procs::new_sem(m, self.key, value) == 0
    }

    /// Drop the semaphore; true on success, exactly when the key exists with
    /// no waiter, and then the key is gone. Otherwise the manager is
    /// untouched.
    pub fn remove(&self, m: &mut ProcessManager) -> (r: bool)
        requires
            old(m).wf(),
        ensures
            final(m).wf(),
            r <==> (match spec_get(old(m).semaphores.sems@, self.key) {
                Some(sm) => sm.waiters.len() == 0,
                None => false,
            }),
            r ==> spec_get(final(m).semaphores.sems@, self.key) is None,
            !r ==> *final(m) == *old(m),
            final(m).processes@ == old(m).processes@,
            forall|k: u32|
                k != self.key ==> #[trigger] spec_get(final(m).semaphores.sems@, k) == spec_get(
                    old(m).semaphores.sems@,
                    k,
                ),
    {
        procs::remove_sem(m, self.key) == 0
    }

    /// Take a permit: the semaphore steps by its `wait` transition for the
    /// current process — the caller continues when a permit was free, and
    /// otherwise parks at the tail of the semaphore's queue with its frame
    /// saved. True unless the key is unknown (and then nothing changes).
    pub fn wait(&self, m: &mut ProcessManager, context: &mut ProcessContext) -> (r: bool)
        requires
            old(m).wf(),
            old(m).status_of(old(m).current) == crate::process::ProgramStatus::Running,
        ensures
            final(m).wf(),
            r <==> spec_get(old(m).semaphores.sems@, self.key) is Some,
            match spec_get(old(m).semaphores.sems@, self.key) {
                None => *final(m) == *old(m),
                Some(sm) => {
                    let (sm2, w) = crate::semaphore::sem_wait_spec(sm, old(m).current);
                    &&& spec_get(final(m).semaphores.sems@, self.key) == Some(sm2)
                    &&& (w is Block ==> ({
                        &&& final(m).status_of(old(m).current)
                            == crate::process::ProgramStatus::Blocked
                        &&& sm2.waiters[sm2.waiters.len() - 1] == old(m).current
                    }))
                },
            },
    {
        procs::sem_wait(m, self.key, context);
        m.semaphores.contains_key(self.key)
    }

    /// Return a permit: the semaphore steps by its `signal` transition — the
    /// head waiter, when one is parked, leaves the queue and turns Ready
    /// with its saved frame intact. True unless the key is unknown (and then
    /// nothing changes).
    pub fn signal(&self, m: &mut ProcessManager, context: &mut ProcessContext) -> (r: bool)
        requires
            old(m).wf(),
        ensures
            final(m).wf(),
            r <==> spec_get(old(m).semaphores.sems@, self.key) is Some,
            match spec_get(old(m).semaphores.sems@, self.key) {
                None => *final(m) == *old(m),
                Some(sm) => {
                    let (sm2, w) = crate::semaphore::sem_signal_spec(sm);
                    &&& spec_get(final(m).semaphores.sems@, self.key) == Some(sm2)
                    &&& (w is WakeUp ==> ({
                        let p = w->WakeUp_0;
                        &&& final(m).status_of(p) == crate::process::ProgramStatus::Ready
                        &&& final(m).proc_of(p).inner.context == old(m).proc_of(
                            p,
                        ).inner.context
                        &&& final(m).ready_queue@.contains(p)
                    }))
                },
            },
    {
        procs::sem_signal(m, self.key, context);
        m.semaphores.contains_key(self.key)
    }
}

} // verus!
