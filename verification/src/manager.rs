//! The process manager: the registry of processes, the FIFO ready queue, the
//! waiters map, the keyed semaphores, and the frame budget.
//!
//! The manager's well-formedness predicate states the subsystem's invariants:
//! at most one Running process and it is the current one; every Ready pid sits
//! in the ready queue exactly once and no Dead pid does; every Blocked pid is
//! referenced by exactly one waiter entry or semaphore queue; and frames are
//! conserved — the allocator's free count plus every mapped page equals the
//! boot-time total. Every scheduler-level operation preserves it.
//!
//! The waiters map is kept flat, as (waiter, target) pairs; the set of waiters
//! of a target is the set of pairs carrying it.

use vstd::prelude::*;

use crate::context::ProcessContext;
use crate::data::ProcessData;
use crate::frames::FrameAllocator;
use crate::input::InputBuffer;
use crate::pid::PidAllocator;
use crate::pid::ProcessId;
use crate::process::Process;
use crate::process::ProcessInner;
use crate::process::ProgramStatus;
use crate::semaphore::SemaphoreSet;
use crate::semaphore::sem_blocked;
use crate::semaphore::waiter_removed_at;
use crate::vm::ElfImage;
use crate::vm::PageTableContext;
use crate::vm::ProcessVm;

verus! {

/// A program the bootloader left in memory: its name and its parsed image.
pub struct AppEntry {
    pub name: String,
    pub elf: ElfImage,
}

/// What the bootloader hands the kernel, as the process subsystem reads it.
pub struct BootInfo {
    /// Pages the kernel image itself has mapped.
    pub kernel_pages: u64,
    /// Frames available after the kernel is mapped (kernel pages and the
    /// kernel stack included).
    pub free_frames: u64,
    /// The boot-time app table.
    pub app_list: Vec<AppEntry>,
}

/// Index of `pid` in a process table.
pub open spec fn idx_of(s: Seq<Process>, pid: ProcessId) -> int {
    choose|i: int| 0 <= i < s.len() && s[i].pid == pid
}

/// Some record in the table carries `pid`.
pub open spec fn has_pid(s: Seq<Process>, pid: ProcessId) -> bool {
    exists|i: int| 0 <= i < s.len() && (#[trigger] s[i]).pid == pid
}

/// The record carrying `pid`.
pub open spec fn proc_at(s: Seq<Process>, pid: ProcessId) -> Process {
    s[idx_of(s, pid)]
}

/// No two records carry the same pid.
pub open spec fn table_distinct(s: Seq<Process>) -> bool {
    forall|a: int, b: int| 0 <= a < b < s.len() ==> (#[trigger] s[a]).pid != (#[trigger] s[b]).pid
}

/// Replacing a record by one with the same pid leaves every other pid's
/// record, and the pid population, unchanged.
pub proof fn lemma_update_same_pid(s: Seq<Process>, i: int, p: Process)
    requires
        0 <= i < s.len(),
        p.pid == s[i].pid,
        table_distinct(s),
    ensures
        table_distinct(s.update(i, p)),
        forall|q: ProcessId| #[trigger] has_pid(s.update(i, p), q) == has_pid(s, q),
        forall|q: ProcessId|
            q != p.pid && has_pid(s, q) ==> #[trigger] proc_at(s.update(i, p), q) == proc_at(s, q),
        has_pid(s, p.pid),
        proc_at(s.update(i, p), p.pid) == p,
        idx_of(s, p.pid) == i,
        idx_of(s.update(i, p), p.pid) == i,
{
    let s2 = s.update(i, p);
    lemma_idx_of_unique(s, p.pid, i);
    lemma_idx_of_unique(s2, p.pid, i);
    assert forall|q: ProcessId| #[trigger] has_pid(s2, q) == has_pid(s, q) by {
        if has_pid(s2, q) {
            let k = choose|k: int| 0 <= k < s2.len() && (#[trigger] s2[k]).pid == q;
            assert(s[k].pid == q || k == i);
            assert(has_pid(s, q));
        }
        if has_pid(s, q) {
            let k = choose|k: int| 0 <= k < s.len() && (#[trigger] s[k]).pid == q;
            assert(s2[k].pid == q || k == i);
            assert(has_pid(s2, q));
        }
    }
    assert forall|q: ProcessId| q != p.pid && has_pid(s, q) implies #[trigger] proc_at(s2, q)
        == proc_at(s, q) by {
        let k = choose|k: int| 0 <= k < s.len() && (#[trigger] s[k]).pid == q;
        assert(k != i);
        assert(s2[k].pid == q);
        lemma_idx_of_unique(s, q, k);
        lemma_idx_of_unique(s2, q, k);
    }
}

/// Appending a record with a fresh pid keeps the others' records and adds
/// one pid to the population.
pub proof fn lemma_push_new_pid(s: Seq<Process>, p: Process)
    requires
        table_distinct(s),
        !has_pid(s, p.pid),
    ensures
        table_distinct(s.push(p)),
        forall|q: ProcessId|
            #[trigger] has_pid(s.push(p), q) == (has_pid(s, q) || q == p.pid),
        forall|q: ProcessId|
            q != p.pid && has_pid(s, q) ==> #[trigger] proc_at(s.push(p), q) == proc_at(s, q),
        proc_at(s.push(p), p.pid) == p,
        idx_of(s.push(p), p.pid) == s.len(),
{
    let s2 = s.push(p);
    assert forall|a: int, b: int| 0 <= a < b < s2.len() implies (#[trigger] s2[a]).pid != (
    #[trigger] s2[b]).pid by {
        if b < s.len() {
            assert(s[a].pid != s[b].pid);
        } else {
            assert(s2[a] == s[a]);
            if s[a].pid == p.pid {
                assert(has_pid(s, p.pid));
            }
        }
    }
    lemma_idx_of_unique(s2, p.pid, s.len() as int);
    assert forall|q: ProcessId| #[trigger] has_pid(s2, q) == (has_pid(s, q) || q == p.pid) by {
        if has_pid(s2, q) {
            let k = choose|k: int| 0 <= k < s2.len() && (#[trigger] s2[k]).pid == q;
            if k < s.len() {
                assert(s[k].pid == q);
                assert(has_pid(s, q));
            }
        }
        if has_pid(s, q) {
            let k = choose|k: int| 0 <= k < s.len() && (#[trigger] s[k]).pid == q;
            assert(s2[k].pid == q);
            assert(has_pid(s2, q));
        }
    }
    assert forall|q: ProcessId| q != p.pid && has_pid(s, q) implies #[trigger] proc_at(s2, q)
        == proc_at(s, q) by {
        let k = choose|k: int| 0 <= k < s.len() && (#[trigger] s[k]).pid == q;
        assert(s2[k].pid == q);
        lemma_idx_of_unique(s, q, k);
        lemma_idx_of_unique(s2, q, k);
    }
}

/// Pages mapped by every process in the table together.
pub open spec fn total_mapped(s: Seq<Process>) -> int
    decreases s.len(),
{
    if s.len() == 0 {
        0
    } else {
        total_mapped(s.drop_last()) + s.last().owned_pages()
    }
}

/// The kernel's one process manager.
pub struct ProcessManager {
    /// Every process ever created, Dead ones included (their records stay
    /// for `get_exit_code`).
    pub processes: Vec<Process>,
    /// FIFO of pids eligible for the next switch.
    pub ready_queue: Vec<ProcessId>,
    /// Flat waiters map: `(waiter, target)` says `waiter` is blocked until
    /// `target` exits.
    pub waiters: Vec<(ProcessId, ProcessId)>,
    /// The keyed counting semaphores, shared by every process.
    pub semaphores: SemaphoreSet,
    /// Pid of the process whose context the CPU is running.
    pub current: ProcessId,
    /// The pid counter.
    pub pids: PidAllocator,
    /// The frame budget.
    pub frames: FrameAllocator,
    /// The boot-time app table.
    pub app_list: Vec<AppEntry>,
    /// The keyboard input buffer.
    pub input: InputBuffer,
    /// Root to hand to the next page table created.
    pub next_root: u64,
}

impl ProcessManager {
    pub open spec fn procs(self) -> Seq<Process> {
        self.processes@
    }

    pub open spec fn has_proc(self, pid: ProcessId) -> bool {
        has_pid(self.procs(), pid)
    }

    pub open spec fn proc_of(self, pid: ProcessId) -> Process {
        proc_at(self.procs(), pid)
    }

    pub open spec fn status_of(self, pid: ProcessId) -> ProgramStatus {
        self.proc_of(pid).inner.status
    }

    /// `pid` is blocked in the waiters map.
    pub open spec fn in_waiters(self, pid: ProcessId) -> bool {
        exists|i: int|
            0 <= i < self.waiters@.len() && (#[trigger] self.waiters@[i]).0 == pid
    }

    /// `pid` is parked in some semaphore's queue.
    pub open spec fn in_sems(self, pid: ProcessId) -> bool {
        sem_blocked(self.semaphores.sems@, pid)
    }

    /// Pids are distinct and below the counter.
    pub open spec fn pids_wf(self) -> bool {
        &&& table_distinct(self.procs())
        &&& forall|i: int|
            0 <= i < self.procs().len() ==> 1 <= (#[trigger] self.procs()[i]).pid.0
                < self.pids.next
    }

    /// The ready queue holds Ready processes, each at most once, and every
    /// Ready process is in it.
    pub open spec fn queue_wf(self) -> bool {
        &&& forall|i: int|
            0 <= i < self.ready_queue@.len() ==> self.has_proc(#[trigger] self.ready_queue@[i])
                && self.status_of(self.ready_queue@[i]) == ProgramStatus::Ready
        &&& forall|i: int, j: int|
            0 <= i < j < self.ready_queue@.len() ==> (#[trigger] self.ready_queue@[i]) != (
            #[trigger] self.ready_queue@[j])
        &&& forall|k: int|
            0 <= k < self.procs().len() && (#[trigger] self.procs()[k]).inner.status
                == ProgramStatus::Ready ==> self.ready_queue@.contains(self.procs()[k].pid)
    }

    /// Waiter pids are distinct, belong to existing Blocked or Dead
    /// processes, and never also sit in a semaphore queue.
    pub open spec fn waiters_wf(self) -> bool {
        &&& forall|i: int, j: int|
            0 <= i < j < self.waiters@.len() ==> (#[trigger] self.waiters@[i]).0 != (
            #[trigger] self.waiters@[j]).0
        &&& forall|i: int|
            0 <= i < self.waiters@.len() ==> self.has_proc((#[trigger] self.waiters@[i]).0) && (
            self.status_of(self.waiters@[i].0) == ProgramStatus::Blocked || self.status_of(
                self.waiters@[i].0,
            ) == ProgramStatus::Dead)
        &&& forall|i: int|
            0 <= i < self.waiters@.len() ==> !self.in_sems((#[trigger] self.waiters@[i]).0)
    }

    /// Semaphore queues hold existing Blocked processes, each pid at most
    /// once across all queues.
    pub open spec fn sem_waiters_wf(self) -> bool {
        &&& forall|i: int, a: int|
            0 <= i < self.semaphores.sems@.len() && 0 <= a < (#[trigger] self.semaphores.sems@[
                i
            ]).1.waiters@.len() ==> self.has_proc(#[trigger] self.semaphores.sems@[i].1.waiters@[a])
                && self.status_of(self.semaphores.sems@[i].1.waiters@[a])
                == ProgramStatus::Blocked
        &&& forall|i: int, a: int, j: int, b: int|
            0 <= i < self.semaphores.sems@.len() && 0 <= a < self.semaphores.sems@[
                i
            ].1.waiters@.len() && 0 <= j < self.semaphores.sems@.len() && 0 <= b
                < self.semaphores.sems@[j].1.waiters@.len() && (i != j || a != b) ==> (
            #[trigger] self.semaphores.sems@[i].1.waiters@[a]) != (
            #[trigger] self.semaphores.sems@[j].1.waiters@[b])
    }

    /// Statuses agree with the scheduler structures: the Running process is
    /// the current one; a Blocked process is referenced by the waiters map or
    /// a semaphore; Ready and Running processes are referenced by neither;
    /// Dead ones never sit in a semaphore queue.
    pub open spec fn status_wf(self) -> bool {
        &&& self.has_proc(self.current)
        &&& forall|k: int|
            0 <= k < self.procs().len() ==> {
                let p = #[trigger] self.procs()[k];
                &&& (p.inner.status == ProgramStatus::Running ==> p.pid == self.current)
                &&& (p.inner.status == ProgramStatus::Blocked ==> self.in_waiters(p.pid)
                    || self.in_sems(p.pid))
                &&& (p.inner.status == ProgramStatus::Ready || p.inner.status
                    == ProgramStatus::Running ==> !self.in_waiters(p.pid) && !self.in_sems(p.pid))
                &&& (p.inner.status == ProgramStatus::Dead ==> !self.in_sems(p.pid))
            }
    }

    /// Per-process record sanity: exactly the Dead have no address space, no
    /// data and an exit code; live address spaces are well formed with a
    /// mapped stack.
    pub open spec fn procs_wf(self) -> bool {
        forall|k: int|
            0 <= k < self.procs().len() ==> {
                let p = #[trigger] self.procs()[k];
                &&& (p.inner.status == ProgramStatus::Dead <==> p.inner.proc_vm is None)
                &&& (p.inner.status == ProgramStatus::Dead <==> p.inner.proc_data is None)
                &&& (p.inner.status == ProgramStatus::Dead <==> p.inner.exit_code is Some)
                &&& (p.inner.proc_vm matches Some(vm) ==> vm.wf() && vm.stack.usage >= 1)
                &&& (p.inner.proc_data matches Some(d) ==> d.wf())
            }
    }

    /// Live stacks occupy pairwise disjoint slots.
    pub open spec fn slots_wf(self) -> bool {
        forall|i: int, j: int|
            (0 <= i < self.procs().len() && 0 <= j < self.procs().len() && i != j && ((
            #[trigger] self.procs()[i]).inner.proc_vm matches Some(_)) && ((
            #[trigger] self.procs()[j]).inner.proc_vm matches Some(_)))
                ==> crate::stack::window_base(self.procs()[i].inner.proc_vm->Some_0.stack.bottom)
                != crate::stack::window_base(self.procs()[j].inner.proc_vm->Some_0.stack.bottom)
    }

    /// Frame conservation: free frames plus every mapped page equals the
    /// boot-time total.
    pub open spec fn frames_wf(self) -> bool {
        &&& self.frames.free + total_mapped(self.procs()) == self.frames.total
        &&& self.frames.wf()
    }

    /// The manager's invariant; every scheduler-level operation preserves it.
    pub open spec fn wf(self) -> bool {
        &&& self.pids_wf()
        &&& self.queue_wf()
        &&& self.waiters_wf()
        &&& self.sem_waiters_wf()
        &&& self.status_wf()
        &&& self.procs_wf()
        &&& self.slots_wf()
        &&& self.frames_wf()
        &&& self.semaphores.wf()
    }

    /// A manager with the kernel process alone, Running.
    pub fn new(init: Process, app_list: Vec<AppEntry>, frames: FrameAllocator, input: InputBuffer)
        -> (m: ProcessManager)
        requires
            init.pid.0 == 1,
            init.inner.status == ProgramStatus::Running,
            init.inner.exit_code is None,
            init.inner.proc_vm matches Some(vm) && vm.wf() && vm.stack.usage >= 1,
            init.inner.proc_data matches Some(d) && d.wf(),
            frames.wf(),
            frames.free + init.owned_pages() == frames.total,
        ensures
            m.wf(),
            m.procs() =~= seq![init],
            m.current == init.pid,
            m.ready_queue@.len() == 0,
            m.waiters@.len() == 0,
            m.semaphores.sems@.len() == 0,
            m.app_list == app_list,
            m.frames == frames,
            m.pids.next == 2,
    {
        let pid = init.pid;
        let mut processes: Vec<Process> = Vec::new();
        processes.push(init);
        let m = ProcessManager {
            processes,
            ready_queue: Vec::new(),
            waiters: Vec::new(),
            semaphores: SemaphoreSet::new(),
            current: pid,
            pids: PidAllocator::start(),
            frames,
            app_list,
            input,
            next_root: 2,
        };
        proof {
            lemma_total_mapped_push(Seq::<Process>::empty(), m.procs()[0]);
            assert(m.procs().drop_last() =~= Seq::<Process>::empty());
            assert(m.has_proc(m.current));
        }
        m
    }

    /// The current process's record.
    pub fn current(&self) -> (r: &Process)
        requires
            self.has_proc(self.current),
            self.pids_wf(),
        ensures
            *r == self.proc_of(self.current),
            r.pid == self.current,
    {
        match self.find_proc(self.current) {
            Some(i) => {
                proof {
                    lemma_idx_of_unique(self.procs(), self.current, i as int);
                }
                &self.processes[i]
            },
            None => unreached(),
        }
    }

    /// The current pid.
    pub fn get_pid(&self) -> (r: ProcessId)
        ensures
            r == self.current,
    {
        self.current
    }

    /// Exit code of `pid`: `Some` once it is Dead. An unknown pid reads as
    /// `None`, like one still alive.
    pub fn get_exit_code(&self, pid: ProcessId) -> (r: Option<isize>)
        requires
            self.pids_wf(),
        ensures
            self.has_proc(pid) ==> r == self.proc_of(pid).inner.exit_code,
            !self.has_proc(pid) ==> r is None,
    {
        match self.find_proc(pid) {
            Some(i) => {
                proof {
                    lemma_idx_of_unique(self.procs(), pid, i as int);
                }
                self.processes[i].read().exit_code()
            },
            None => None,
        }
    }

    /// Whether `pid` names a process that has not exited.
    pub fn is_proc_alive(&self, pid: &ProcessId) -> (r: bool)
        requires
            self.pids_wf(),
        ensures
            r == (self.has_proc(*pid) && self.status_of(*pid) != ProgramStatus::Dead),
    {
        match self.find_proc(*pid) {
            Some(i) => {
                proof {
                    lemma_idx_of_unique(self.procs(), *pid, i as int);
                }
                match self.processes[i].read().status() {
                    ProgramStatus::Dead => false,
                    _ => true,
                }
            },
            None => false,
        }
    }

    /// The boot-time app table.
    pub fn app_list(&self) -> (r: &Vec<AppEntry>)
        ensures
            r == &self.app_list,
    {
        &self.app_list
    }

    /// Append `pid` to the ready queue; the callers keep the queue's
    /// invariant.
    pub fn push_ready(&mut self, pid: ProcessId)
        ensures
            *final(self) == (ProcessManager { ready_queue: final(self).ready_queue, ..*old(
                self,
            ) }),
            final(self).ready_queue@ == old(self).ready_queue@.push(pid),
    {
        self.ready_queue.push(pid);
    }

    /// The ready queue's entries name Ready processes, each at most once.
    pub open spec fn queue_ok(self) -> bool {
        &&& forall|i: int|
            0 <= i < self.ready_queue@.len() ==> self.has_proc(#[trigger] self.ready_queue@[i])
                && self.status_of(self.ready_queue@[i]) == ProgramStatus::Ready
        &&& forall|i: int, j: int|
            0 <= i < j < self.ready_queue@.len() ==> (#[trigger] self.ready_queue@[i]) != (
            #[trigger] self.ready_queue@[j])
    }

    /// Charge a tick to the current process, save the caller's frame into its
    /// record and mark it Ready (skipped if it is Dead); returns its pid. The
    /// caller decides whether to re-enqueue it.
    pub fn save_current(&mut self, context: &ProcessContext) -> (r: ProcessId)
        requires
            old(self).pids_wf(),
            old(self).has_proc(old(self).current),
        ensures
            r == old(self).current,
            ({
                let i = idx_of(old(self).procs(), old(self).current);
                let p = old(self).procs()[i];
                let ticks2: u64 = if p.inner.ticks_passed < u64::MAX {
                    (p.inner.ticks_passed + 1) as u64
                } else {
                    p.inner.ticks_passed
                };
                let inner2 = if p.inner.status != ProgramStatus::Dead {
                    ProcessInner {
                        ticks_passed: ticks2,
                        context: *context,
                        status: ProgramStatus::Ready,
                        ..p.inner
                    }
                } else {
                    ProcessInner { ticks_passed: ticks2, ..p.inner }
                };
                &&& final(self).processes@ == old(self).procs().update(
                    i,
                    Process { pid: p.pid, inner: inner2 },
                )
                &&& *final(self) == (ProcessManager {
                    processes: final(self).processes,
                    ..*old(self)
                })
            }),
    {
        let i = match self.find_proc(self.current) {
            Some(i) => i,
            None => unreached(),
        };
        proof {
            lemma_idx_of_unique(self.procs(), self.current, i as int);
        }
        let ghost procs0 = self.procs();
        let pr = &mut self.processes[i];
        let pid = pr.pid;
        let inner = pr.write();
        if inner.ticks_passed < u64::MAX {
            inner.tick();
        }
        inner.save(context);
        proof {
            assert(self.processes@ =~= procs0.update(i as int, self.processes@[i as int]));
        }
        pid
    }

    /// Pop the head of the ready queue, mark it Running, make it current and
    /// hand its saved frame to the caller. `None` when nothing is ready.
    pub fn switch_next(&mut self, context: &mut ProcessContext) -> (r: Option<ProcessId>)
        requires
            old(self).pids_wf(),
            old(self).queue_ok(),
        ensures
            old(self).ready_queue@.len() == 0 ==> r is None && *final(self) == *old(self)
                && *final(context) == *old(context),
            old(self).ready_queue@.len() > 0 ==> ({
                let h = old(self).ready_queue@[0];
                let i = idx_of(old(self).procs(), h);
                let p = old(self).procs()[i];
                &&& r == Some(h)
                &&& final(self).ready_queue@ == old(self).ready_queue@.drop_first()
                &&& final(self).processes@ == old(self).procs().update(
                    i,
                    Process {
                        pid: p.pid,
                        inner: ProcessInner { status: ProgramStatus::Running, ..p.inner },
                    },
                )
                &&& final(self).current == h
                &&& *final(context) == p.inner.context
                &&& *final(self) == (ProcessManager {
                    processes: final(self).processes,
                    ready_queue: final(self).ready_queue,
                    current: h,
                    ..*old(self)
                })
            }),
    {
        if self.ready_queue.len() == 0 {
            return None;
        }
        let h = self.ready_queue.remove(0);
        let i = match self.find_proc(h) {
            Some(i) => i,
            None => unreached(),
        };
        proof {
            lemma_idx_of_unique(self.procs(), h, i as int);
        }
        let ghost procs0 = self.procs();
        let pr = &mut self.processes[i];
        let inner = pr.write();
        inner.restore(context);
        self.current = h;
        proof {
            assert(self.processes@ =~= procs0.update(i as int, self.processes@[i as int]));
        }
        Some(h)
    }

    /// Like `wf`, but a Blocked process may instead be named by `pending`
    /// (pids about to be woken).
    pub open spec fn wf_except_blocked(self, pending: Seq<ProcessId>) -> bool {
        &&& self.pids_wf()
        &&& self.queue_wf()
        &&& self.waiters_wf()
        &&& self.sem_waiters_wf()
        &&& self.has_proc(self.current)
        &&& forall|k: int|
            0 <= k < self.procs().len() ==> {
                let p = #[trigger] self.procs()[k];
                &&& (p.inner.status == ProgramStatus::Running ==> p.pid == self.current)
                &&& (p.inner.status == ProgramStatus::Blocked ==> self.in_waiters(p.pid)
                    || self.in_sems(p.pid) || pending.contains(p.pid))
                &&& (p.inner.status == ProgramStatus::Ready || p.inner.status
                    == ProgramStatus::Running ==> !self.in_waiters(p.pid) && !self.in_sems(p.pid))
                &&& (p.inner.status == ProgramStatus::Dead ==> !self.in_sems(p.pid))
            }
        &&& self.procs_wf()
        &&& self.slots_wf()
        &&& self.frames_wf()
        &&& self.semaphores.wf()
    }

    /// Wake one pid that was just removed from the waiters map: a Blocked one
    /// gets `ret` in its return register, turns Ready and is enqueued; a Dead
    /// one is left alone.
    fn wake_one(&mut self, w: ProcessId, ret: isize, Ghost(pending): Ghost<Seq<ProcessId>>)
        requires
            old(self).wf_except_blocked(pending),
            pending.len() > 0,
            pending[0] == w,
            old(self).has_proc(w),
            old(self).status_of(w) == ProgramStatus::Blocked || old(self).status_of(w)
                == ProgramStatus::Dead,
            !old(self).in_waiters(w),
            !old(self).in_sems(w),
        ensures
            final(self).wf_except_blocked(pending.drop_first()),
            old(self).status_of(w) == ProgramStatus::Blocked ==> ({
                let i = idx_of(old(self).procs(), w);
                let p = old(self).procs()[i];
                &&& final(self).processes@ == old(self).procs().update(
                    i,
                    Process {
                        pid: p.pid,
                        inner: ProcessInner {
                            status: ProgramStatus::Ready,
                            context: (ProcessContext { rax: ret as u64, ..p.inner.context }),
                            ..p.inner
                        },
                    },
                )
                &&& final(self).ready_queue@ == old(self).ready_queue@.push(w)
            }),
            old(self).status_of(w) == ProgramStatus::Dead ==> final(self).processes@ == old(
                self,
            ).processes@ && final(self).ready_queue@ == old(self).ready_queue@,
            final(self).waiters == old(self).waiters,
            final(self).semaphores == old(self).semaphores,
            final(self).current == old(self).current,
            final(self).pids == old(self).pids,
            final(self).frames == old(self).frames,
            forall|q: ProcessId| #[trigger] final(self).has_proc(q) == old(self).has_proc(q),
            forall|q: ProcessId|
                q != w && old(self).has_proc(q) ==> #[trigger] final(self).proc_of(q) == old(
                    self,
                ).proc_of(q),
    {
        let ghost m0 = *self;
        let i = match self.find_proc(w) {
            Some(i) => i,
            None => unreached(),
        };
        proof {
            lemma_idx_of_unique(m0.procs(), w, i as int);
        }
        let is_dead = match self.processes[i].read().status() {
            ProgramStatus::Dead => true,
            _ => false,
        };
        if is_dead {
            proof {
                assert(self.processes@ =~= m0.processes@);
                lemma_wake_one_dead(m0, pending, w);
            }
            return;
        }
        let ghost procs0 = self.procs();
        let pr = &mut self.processes[i];
        let inner = pr.write();
        inner.context().set_rax(ret as u64);
        inner.pause();
        proof {
            assert(self.processes@ =~= procs0.update(i as int, self.processes@[i as int]));
        }
        self.ready_queue.push(w);
        proof {
            lemma_wake_one_blocked(m0, *self, pending, w, ret, i as int);
        }
    }

    /// After waking with `ret`: a waiter Blocked in `m0` is Ready with `ret`
    /// in its return register; a Dead one is untouched.
    pub open spec fn woke_waiter(m0: ProcessManager, m1: ProcessManager, w: ProcessId, ret: isize)
        -> bool {
        &&& (m0.status_of(w) == ProgramStatus::Blocked ==> m1.proc_of(w).inner == (ProcessInner {
            status: ProgramStatus::Ready,
            context: (ProcessContext { rax: ret as u64, ..m0.proc_of(w).inner.context }),
            ..m0.proc_of(w).inner
        }) && m1.ready_queue@.contains(w))
        &&& (m0.status_of(w) == ProgramStatus::Dead ==> m1.proc_of(w) == m0.proc_of(w))
    }

    /// Remove the waiter entries naming the current process as target and
    /// wake each waiter: its `WaitPid` gets `ret` as return value, it turns
    /// Ready and is enqueued. Dead waiters are dropped without waking.
    pub fn wake_waiting(&mut self, ret: isize)
        requires
            old(self).wf(),
            old(self).status_of(old(self).current) == ProgramStatus::Running || old(
                self,
            ).status_of(old(self).current) == ProgramStatus::Dead,
        ensures
            final(self).wf(),
            final(self).current == old(self).current,
            final(self).semaphores == old(self).semaphores,
            final(self).pids == old(self).pids,
            final(self).frames == old(self).frames,
            forall|x: int|
                0 <= x < final(self).waiters@.len() ==> (#[trigger] final(self).waiters@[x]).1
                    != old(self).current,
            forall|x: int|
                0 <= x < old(self).waiters@.len() && (#[trigger] old(self).waiters@[x]).1 == old(
                    self,
                ).current ==> ProcessManager::woke_waiter(
                    *old(self),
                    *final(self),
                    old(self).waiters@[x].0,
                    ret,
                ),
            final(self).proc_of(old(self).current) == old(self).proc_of(old(self).current),
            forall|q: ProcessId| #[trigger] final(self).has_proc(q) == old(self).has_proc(q),
            old(self).ready_queue@.is_prefix_of(final(self).ready_queue@),
    {
        let ghost m0 = *self;
        let cur = self.current;
        self.wake_waiting_for(cur, ret);
        proof {
            assert(!m0.waiters@.contains((cur, cur)) || m0.status_of(cur)
                == ProgramStatus::Dead) by {
                if m0.waiters@.contains((cur, cur)) {
                    let x = choose|x: int|
                        0 <= x < m0.waiters@.len() && m0.waiters@[x] == (cur, cur);
                    assert(m0.status_of(m0.waiters@[x].0) == ProgramStatus::Blocked
                        || m0.status_of(m0.waiters@[x].0) == ProgramStatus::Dead);
                }
            }
        }
    }

    /// Remove the waiter entries naming `target` and wake each waiter: its
    /// `WaitPid` gets `ret` as return value, it turns Ready and is enqueued.
    /// Dead waiters are dropped without waking. Processes that were not
    /// blocked waiting on `target`, and Dead ones, keep their records.
    #[verifier::rlimit(80)]
    pub fn wake_waiting_for(&mut self, target: ProcessId, ret: isize)
        requires
            old(self).wf(),
        ensures
            final(self).wf(),
            final(self).current == old(self).current,
            final(self).semaphores == old(self).semaphores,
            final(self).pids == old(self).pids,
            final(self).frames == old(self).frames,
            forall|x: int|
                0 <= x < final(self).waiters@.len() ==> (#[trigger] final(self).waiters@[x]).1
                    != target,
            forall|x: int|
                0 <= x < old(self).waiters@.len() && (#[trigger] old(self).waiters@[x]).1
                    == target ==> ProcessManager::woke_waiter(
                    *old(self),
                    *final(self),
                    old(self).waiters@[x].0,
                    ret,
                ),
            forall|q: ProcessId|
                old(self).has_proc(q) && !old(self).waiters@.contains((q, target))
                    ==> #[trigger] final(self).proc_of(q) == old(self).proc_of(q),
            forall|q: ProcessId|
                old(self).has_proc(q) && old(self).status_of(q) == ProgramStatus::Dead
                    ==> #[trigger] final(self).proc_of(q) == old(self).proc_of(q),
            forall|q: ProcessId| #[trigger] final(self).has_proc(q) == old(self).has_proc(q),
            old(self).ready_queue@.is_prefix_of(final(self).ready_queue@),
    {
        let cur = target;
        let ghost m0 = *self;
        let mut i: usize = 0;
        proof {
            assert(m0.waiters@.skip(0) =~= m0.waiters@);
        }
        while i < self.waiters.len()
            invariant
                m0.ready_queue@.is_prefix_of(self.ready_queue@),
                self.wf_except_blocked(waiting_on(self.waiters@.skip(i as int), cur)),
                m0.wf(),
                0 <= i <= self.waiters@.len(),
                self.current == m0.current,
                self.semaphores == m0.semaphores,
                self.pids == m0.pids,
                self.frames == m0.frames,
                forall|x: int| 0 <= x < i ==> (#[trigger] self.waiters@[x]).1 != cur,
                forall|x: int|
                    0 <= x < self.waiters@.len() ==> m0.waiters@.contains(
                        #[trigger] self.waiters@[x],
                    ),
                forall|x: int|
                    0 <= x < m0.waiters@.len() && (#[trigger] m0.waiters@[x]).1 == cur
                        && self.waiters@.contains(m0.waiters@[x]) ==> self.proc_of(
                        m0.waiters@[x].0,
                    ) == m0.proc_of(m0.waiters@[x].0),
                forall|x: int|
                    0 <= x < m0.waiters@.len() && (#[trigger] m0.waiters@[x]).1 == cur
                        && !self.waiters@.contains(m0.waiters@[x])
                        ==> ProcessManager::woke_waiter(m0, *self, m0.waiters@[x].0, ret),
                forall|q: ProcessId|
                    m0.has_proc(q) && !m0.waiters@.contains((q, cur))
                        ==> #[trigger] self.proc_of(q) == m0.proc_of(q),
                forall|q: ProcessId|
                    m0.has_proc(q) && m0.status_of(q) == ProgramStatus::Dead
                        ==> #[trigger] self.proc_of(q) == m0.proc_of(q),
                forall|q: ProcessId| #[trigger] self.has_proc(q) == m0.has_proc(q),
            decreases self.waiters@.len() - i,
        {
            let tgt = self.waiters[i].1;
            if tgt.0 == cur.0 {
                let ghost m_pre = *self;
                let ghost s_pre = self.waiters@;
                let ghost pending = waiting_on(s_pre.skip(i as int), cur);
                let pair = self.waiters.remove(i);
                let w = pair.0;
                proof {
                    assert(tgt == cur);
                    assert(s_pre.skip(i as int)[0] == s_pre[i as int]);
                    lemma_wf_after_pair_removal(m_pre, *self, i as int, cur, pending);
                }
                let ghost m_mid = *self;
                self.wake_one(w, ret, Ghost(pending));
                proof {
                    if m_mid.status_of(w) == ProgramStatus::Blocked {
                        let iw = idx_of(m_mid.procs(), w);
                        lemma_update_same_pid(m_mid.procs(), iw, self.processes@[iw]);
                        lemma_idx_of_unique(self.procs(), w, iw);
                        assert(self.proc_of(w) == self.processes@[iw]);
                    }
                    lemma_wake_step(m0, m_pre, m_mid, *self, i as int, cur, w, ret);
                    assert(m0.ready_queue@.is_prefix_of(self.ready_queue@)) by {
                        let q0 = m0.ready_queue@;
                        let qm = m_mid.ready_queue@;
                        if self.ready_queue@ == qm.push(w) {
                            assert(qm.push(w).take(q0.len() as int) =~= qm.take(q0.len() as int));
                        }
                    }
                }
            } else {
                proof {
                    let s = self.waiters@;
                    assert(s.skip(i as int)[0] == s[i as int]);
                    assert(s.skip(i as int).drop_first() =~= s.skip(i as int + 1));
                }
                i = i + 1;
            }
        }
        proof {
            assert(self.waiters@.skip(i as int) =~= Seq::<(ProcessId, ProcessId)>::empty());
            lemma_wf_from_no_pending(*self);
        }
    }

    /// Kill the current (Running) process: record `ret` as its exit code,
    /// mark it Dead, and release every frame its address space held. The
    /// caller then switches away.
    pub fn kill_current(&mut self, ret: isize)
        requires
            old(self).wf(),
            old(self).status_of(old(self).current) == ProgramStatus::Running,
        ensures
            final(self).wf(),
            final(self).no_running(),
            final(self).current == old(self).current,
            final(self).ready_queue == old(self).ready_queue,
            final(self).waiters == old(self).waiters,
            final(self).semaphores == old(self).semaphores,
            final(self).pids == old(self).pids,
            ({
                let i = idx_of(old(self).procs(), old(self).current);
                let p = old(self).procs()[i];
                &&& final(self).processes@ == old(self).procs().update(
                    i,
                    Process {
                        pid: p.pid,
                        inner: ProcessInner {
                            status: ProgramStatus::Dead,
                            exit_code: Some(ret),
                            proc_vm: None,
                            proc_data: None,
                            ..p.inner
                        },
                    },
                )
                &&& final(self).frames.free == old(self).frames.free + p.owned_pages()
                &&& final(self).frames.total == old(self).frames.total
            }),
            final(self).status_of(final(self).current) == ProgramStatus::Dead,
            forall|q: ProcessId| #[trigger] final(self).has_proc(q) == old(self).has_proc(q),
            forall|q: ProcessId|
                q != old(self).current && old(self).has_proc(q)
                    ==> #[trigger] final(self).proc_of(q) == old(self).proc_of(q),
    {
        let ghost m0 = *self;
        let cur = self.current;
        let i = match self.find_proc(cur) {
            Some(i) => i,
            None => unreached(),
        };
        proof {
            lemma_idx_of_unique(m0.procs(), cur, i as int);
        }
        let ghost procs0 = self.procs();
        let mut vmslot: Option<ProcessVm> = None;
        let pr = &mut self.processes[i];
        core::mem::swap(&mut pr.inner.proc_vm, &mut vmslot);
        pr.inner.exit_code = Some(ret);
        pr.inner.status = ProgramStatus::Dead;
        pr.inner.proc_data = None;
        proof {
            assert(self.processes@ =~= procs0.update(i as int, self.processes@[i as int]));
        }
        proof {
            lemma_total_mapped_bound(m0.procs(), i as int);
        }
        match &mut vmslot {
            Some(vm) => {
                proof {
                    crate::stack::lemma_wf_usage_bound(vm.stack);
                }
                vm.clean_up(&mut self.frames);
            },
            None => {
                unreached::<()>()
            },
        }
        proof {
            let p = m0.procs()[i as int];
            let p2 = self.processes@[i as int];
            lemma_update_same_pid(m0.procs(), i as int, p2);
            lemma_total_mapped_update(m0.procs(), i as int, p2);
            lemma_wf_after_kill_current(m0, *self, i as int, ret);
        }
    }

    /// Kill `pid`: a noop when it is absent or already Dead. Otherwise its
    /// waiters are woken with `ret`, the process turns Dead with `ret`
    /// recorded, its frames return to the allocator, and it leaves the
    /// ready queue or the semaphore queue it was parked in (a cancelled
    /// semaphore wait hands its claimed permit back to the count).
    pub fn kill(&mut self, pid: ProcessId, ret: isize)
        requires
            old(self).wf(),
        ensures
            final(self).wf(),
            !(old(self).has_proc(pid) && old(self).status_of(pid) != ProgramStatus::Dead)
                ==> *final(self) == *old(self),
            old(self).has_proc(pid) && old(self).status_of(pid) != ProgramStatus::Dead ==> ({
                &&& final(self).status_of(pid) == ProgramStatus::Dead
                &&& final(self).proc_of(pid).inner.exit_code == Some(ret)
                &&& final(self).current == old(self).current
                &&& final(self).frames.total == old(self).frames.total
                &&& (forall|x: int|
                    0 <= x < old(self).waiters@.len() && (#[trigger] old(self).waiters@[x]).1
                        == pid && old(self).waiters@[x].0 != pid && old(self).status_of(
                        old(self).waiters@[x].0,
                    ) == ProgramStatus::Blocked ==> ({
                        let w = old(self).waiters@[x].0;
                        &&& final(self).proc_of(w).inner.context.rax == ret as u64
                        &&& final(self).status_of(w) == ProgramStatus::Ready
                    }))
            }),
    {
        let ghost m0 = *self;
        if !self.is_proc_alive(&pid) {
            return ;
        }
        self.wake_waiting_for(pid, ret);
        let ghost m1 = *self;
        let i = match self.find_proc(pid) {
            Some(i) => i,
            None => unreached(),
        };
        proof {
            lemma_idx_of_unique(m1.procs(), pid, i as int);
            // the wake left the target alive: untouched, unless it was
            // waiting on itself and then woke to Ready
            assert(m1.status_of(pid) != ProgramStatus::Dead) by {
                if m0.waiters@.contains((pid, pid)) {
                    let x = choose|x: int|
                        0 <= x < m0.waiters@.len() && #[trigger] m0.waiters@[x] == (pid, pid);
                    assert(ProcessManager::woke_waiter(m0, m1, pid, ret));
                    assert(m0.status_of(m0.waiters@[x].0) == ProgramStatus::Blocked
                        || m0.status_of(m0.waiters@[x].0) == ProgramStatus::Dead);
                } else {
                    assert(m1.proc_of(pid) == m0.proc_of(pid));
                }
            }
        }
        let status = self.processes[i].read().status();
        match status {
            ProgramStatus::Running => {
                proof {
                    assert(m1.procs()[i as int].inner.status == ProgramStatus::Running);
                    assert(pid == m1.current);
                }
                self.kill_current(ret);
            },
            ProgramStatus::Dead => {
                unreached::<()>()
            },
            _ => {
                self.kill_parked(i, ret);
            },
        }
        proof {
            assert forall|x: int|
                0 <= x < m0.waiters@.len() && (#[trigger] m0.waiters@[x]).1 == pid
                    && m0.waiters@[x].0 != pid && m0.status_of(m0.waiters@[x].0)
                    == ProgramStatus::Blocked implies ({
                let w = m0.waiters@[x].0;
                &&& self.proc_of(w).inner.context.rax == ret as u64
                &&& self.status_of(w) == ProgramStatus::Ready
            }) by {
                let w = m0.waiters@[x].0;
                assert(ProcessManager::woke_waiter(m0, m1, w, ret));
                assert(m1.has_proc(w));
                assert(self.proc_of(w) == m1.proc_of(w));
            }
        }
    }

    /// Turn the Ready or Blocked process at table index `i` Dead with `ret`
    /// recorded: it leaves the ready queue or its semaphore queue, and its
    /// frames return to the allocator.
    fn kill_parked(&mut self, i: usize, ret: isize)
        requires
            old(self).wf(),
            i < old(self).procs().len(),
            old(self).procs()[i as int].inner.status == ProgramStatus::Ready || old(
                self,
            ).procs()[i as int].inner.status == ProgramStatus::Blocked,
        ensures
            final(self).wf(),
            final(self).current == old(self).current,
            final(self).waiters == old(self).waiters,
            final(self).pids == old(self).pids,
            final(self).frames.total == old(self).frames.total,
            final(self).frames.free == old(self).frames.free + old(self).procs()[
                i as int
            ].owned_pages(),
            ({
                let pid = old(self).procs()[i as int].pid;
                &&& final(self).status_of(pid) == ProgramStatus::Dead
                &&& final(self).proc_of(pid).inner.exit_code == Some(ret)
                &&& (forall|q: ProcessId|
                    q != pid && old(self).has_proc(q) ==> #[trigger] final(self).proc_of(q)
                        == old(self).proc_of(q))
                &&& (forall|q: ProcessId|
                    #[trigger] final(self).has_proc(q) == old(self).has_proc(q))
            }),
    {
        let ghost m0 = *self;
        let pid = self.processes[i].pid();
        proof {
            lemma_idx_of_unique(m0.procs(), pid, i as int);
        }
        // leave the ready queue when on it
        let mut qi: usize = 0;
        let mut found = false;
        while qi < self.ready_queue.len() && !found
            invariant
                *self == m0,
                qi <= self.ready_queue@.len(),
                found ==> qi < self.ready_queue@.len() && self.ready_queue@[qi as int] == pid,
                !found ==> forall|t: int| 0 <= t < qi ==> self.ready_queue@[t] != pid,
            decreases self.ready_queue@.len() - qi + (if found {
                0int
            } else {
                1int
            }),
        {
            if self.ready_queue[qi].0 == pid.0 {
                found = true;
            } else {
                qi = qi + 1;
            }
        }
        let ghost qfound = found;
        let ghost qidx = qi as int;
        if found {
            self.ready_queue.remove(qi);
        }
        proof {
            if m0.status_of(pid) == ProgramStatus::Ready {
                assert(qfound) by {
                    if !qfound {
                        assert(m0.ready_queue@.contains(pid));
                        let t = choose|t: int|
                            0 <= t < m0.ready_queue@.len() && m0.ready_queue@[t] == pid;
                    }
                }
            }
            if m0.status_of(pid) == ProgramStatus::Blocked {
                assert(!qfound) by {
                    if qfound {
                        assert(m0.status_of(m0.ready_queue@[qidx]) == ProgramStatus::Ready);
                    }
                }
            }
        }
        // leave a semaphore queue when parked in one
        let _was_parked = self.semaphores.cancel_waiter(pid);
        // deadify the record, returning its pages
        let ghost procs0 = self.procs();
        let mut vmslot: Option<ProcessVm> = None;
        let pr = &mut self.processes[i];
        core::mem::swap(&mut pr.inner.proc_vm, &mut vmslot);
        pr.inner.exit_code = Some(ret);
        pr.inner.status = ProgramStatus::Dead;
        pr.inner.proc_data = None;
        proof {
            assert(self.processes@ =~= procs0.update(i as int, self.processes@[i as int]));
            lemma_total_mapped_bound(m0.procs(), i as int);
        }
        match &mut vmslot {
            Some(vm) => {
                proof {
                    crate::stack::lemma_wf_usage_bound(vm.stack);
                }
                vm.clean_up(&mut self.frames);
            },
            None => {
                unreached::<()>()
            },
        }
        proof {
            let p2 = self.processes@[i as int];
            lemma_update_same_pid(m0.procs(), i as int, p2);
            lemma_total_mapped_update(m0.procs(), i as int, p2);
            lemma_wf_after_kill_parked(m0, *self, i as int, ret, qfound, qidx);
        }
    }

    /// Record that the current process waits for `target` to exit.
    pub fn add_waiting(&mut self, target: ProcessId)
        ensures
            *final(self) == (ProcessManager { waiters: final(self).waiters, ..*old(self) }),
            final(self).waiters@ == old(self).waiters@.push((old(self).current, target)),
    {
        let cur = self.current;
        self.waiters.push((cur, target));
    }

    /// Mark `pid` Blocked.
    pub fn block_proc(&mut self, pid: &ProcessId)
        requires
            old(self).pids_wf(),
            old(self).has_proc(*pid),
        ensures
            ({
                let i = idx_of(old(self).procs(), *pid);
                let p = old(self).procs()[i];
                &&& final(self).processes@ == old(self).procs().update(
                    i,
                    Process {
                        pid: p.pid,
                        inner: ProcessInner { status: ProgramStatus::Blocked, ..p.inner },
                    },
                )
                &&& *final(self) == (ProcessManager {
                    processes: final(self).processes,
                    ..*old(self)
                })
            }),
    {
        let i = match self.find_proc(*pid) {
            Some(i) => i,
            None => unreached(),
        };
        proof {
            lemma_idx_of_unique(self.procs(), *pid, i as int);
        }
        let ghost procs0 = self.procs();
        let pr = &mut self.processes[i];
        pr.write().block();
        proof {
            assert(self.processes@ =~= procs0.update(i as int, self.processes@[i as int]));
        }
    }

    /// Wake a pid just dequeued from a semaphore: mark it Ready and enqueue
    /// it. Its saved return register is left alone.
    pub fn wake_up(&mut self, w: ProcessId, Ghost(pending): Ghost<Seq<ProcessId>>)
        requires
            old(self).wf_except_blocked(pending),
            pending.len() > 0,
            pending[0] == w,
            old(self).has_proc(w),
            old(self).status_of(w) == ProgramStatus::Blocked,
            !old(self).in_waiters(w),
            !old(self).in_sems(w),
        ensures
            final(self).wf_except_blocked(pending.drop_first()),
            ({
                let i = idx_of(old(self).procs(), w);
                let p = old(self).procs()[i];
                &&& final(self).processes@ == old(self).procs().update(
                    i,
                    Process {
                        pid: p.pid,
                        inner: ProcessInner { status: ProgramStatus::Ready, ..p.inner },
                    },
                )
                &&& final(self).ready_queue@ == old(self).ready_queue@.push(w)
            }),
            final(self).waiters == old(self).waiters,
            final(self).semaphores == old(self).semaphores,
            final(self).current == old(self).current,
            final(self).pids == old(self).pids,
            final(self).frames == old(self).frames,
            forall|q: ProcessId| #[trigger] final(self).has_proc(q) == old(self).has_proc(q),
            forall|q: ProcessId|
                q != w && old(self).has_proc(q)
                    ==> #[trigger] final(self).proc_of(q) == old(self).proc_of(q),
    {
        let ghost m0 = *self;
        let i = match self.find_proc(w) {
            Some(i) => i,
            None => unreached(),
        };
        proof {
            lemma_idx_of_unique(m0.procs(), w, i as int);
        }
        let ghost procs0 = self.procs();
        let pr = &mut self.processes[i];
        pr.write().pause();
        proof {
            assert(self.processes@ =~= procs0.update(i as int, self.processes@[i as int]));
        }
        self.ready_queue.push(w);
        proof {
            lemma_wake_up_blocked(m0, *self, pending, w, i as int);
        }
    }

    /// Whether some live process's stack occupies the slot whose base is
    /// `slot_base`.
    pub(crate) fn slot_taken(&self, slot_base_addr: u64) -> (r: bool)
        ensures
            r == exists|k: int|
                0 <= k < self.procs().len() && ((#[trigger] self.procs()[k]).inner.proc_vm
                    matches Some(_)) && crate::stack::window_base(
                    self.procs()[k].inner.proc_vm->Some_0.stack.bottom,
                ) == slot_base_addr,
    {
        let mut k: usize = 0;
        while k < self.processes.len()
            invariant
                0 <= k <= self.procs().len(),
                forall|j: int|
                    0 <= j < k ==> !(((#[trigger] self.procs()[j]).inner.proc_vm
                        matches Some(_)) && crate::stack::window_base(
                        self.procs()[j].inner.proc_vm->Some_0.stack.bottom,
                    ) == slot_base_addr),
            decreases self.procs().len() - k,
        {
            match &self.processes[k].inner.proc_vm {
                Some(vm) => {
                    let wb = (vm.stack.stack_min_addr() / crate::stack::STACK_MAX_SIZE)
                        * crate::stack::STACK_MAX_SIZE;
                    if wb == slot_base_addr {
                        return true;
                    }
                },
                None => {},
            }
            k = k + 1;
        }
        false
    }

    /// Some live process's stack occupies stack slot number `slot`.
    pub open spec fn slot_occupied(self, slot: u64) -> bool {
        exists|k: int|
            0 <= k < self.procs().len() && ((#[trigger] self.procs()[k]).inner.proc_vm
                matches Some(_)) && crate::stack::window_base(
                self.procs()[k].inner.proc_vm->Some_0.stack.bottom,
            ) == crate::stack::slot_base(slot)
    }

    /// The only grounds on which a spawn is refused: pids exhausted, the next
    /// pid past the last stack slot, that pid's slot taken, page-table roots
    /// exhausted, or frames short of the image plus the initial stack page.
    pub open spec fn spawn_refused(self, elf: ElfImage) -> bool {
        ||| self.pids.next == u16::MAX
        ||| self.pids.next as int > crate::stack::STACK_SLOTS
        ||| self.slot_occupied(self.pids.next as u64)
        ||| self.next_root == u64::MAX
        ||| self.frames.free < elf.pages + crate::stack::STACK_DEF_PAGE
    }

    /// Create a process from a loaded image: a fresh pid, the image mapped,
    /// one stack page at the pid's slot, entry point and initial stack
    /// pointer in the saved frame, parent = the current process, Ready and
    /// enqueued. `None` when pids, the pid's stack slot, page-table roots or
    /// frames run out (the pid counter may still advance), and only then.
    pub fn spawn(&mut self, elf: &ElfImage, name: String, proc_data: Option<ProcessData>) -> (r:
        Option<ProcessId>)
        requires
            old(self).wf(),
            old(self).proc_data_wf_opt(proc_data),
        ensures
            final(self).wf(),
            r is None ==> old(self).spawn_refused(*elf),
            match r {
                Some(pid) => {
                    &&& !old(self).has_proc(pid)
                    &&& final(self).has_proc(pid)
                    &&& pid.0 >= 2
                    &&& final(self).status_of(pid) == ProgramStatus::Ready
                    &&& final(self).proc_of(pid).inner.parent == Some(old(self).current)
                    &&& final(self).proc_of(pid).inner.name == name
                    &&& final(self).proc_of(pid).inner.context.rip == elf.entry
                    &&& final(self).proc_of(pid).inner.context.rsp == crate::stack::slot_init_bottom(
                        pid.0,
                    ) + crate::stack::STACK_DEF_SIZE - 8
                    &&& final(self).proc_of(pid).inner.ticks_passed == 0
                    &&& final(self).proc_of(pid).inner.children@.len() == 0
                    &&& final(self).proc_of(pid).inner.exit_code is None
                    &&& final(self).ready_queue@ == old(self).ready_queue@.push(pid)
                    &&& final(self).current == old(self).current
                    &&& final(self).status_of(old(self).current) == old(self).status_of(
                        old(self).current,
                    )
                    &&& final(self).frames.free == old(self).frames.free - elf.pages
                        - crate::stack::STACK_DEF_PAGE
                },
                None => {
                    &&& final(self).processes@ == old(self).processes@
                    &&& final(self).ready_queue@ == old(self).ready_queue@
                    &&& final(self).waiters == old(self).waiters
                    &&& final(self).semaphores == old(self).semaphores
                    &&& final(self).current == old(self).current
                    &&& final(self).frames == old(self).frames
                },
            },
    {
        let ghost m0 = *self;
        let pid = match self.pids.fresh() {
            Some(p) => p,
            None => {
                return None;
            },
        };
        if (pid.0 as u64) > crate::stack::STACK_SLOTS {
            return None;
        }
        proof {
            crate::stack::lemma_slot_init_window(pid.0);
        }
        let slot_base_addr = crate::stack::STACK_MAX - (pid.0 as u64)
            * crate::stack::STACK_MAX_SIZE;
        if self.slot_taken(slot_base_addr) {
            return None;
        }
        let root = self.next_root;
        if root == u64::MAX {
            return None;
        }
        self.next_root = root + 1;
        let mut vm = ProcessVm::new(PageTableContext::new(root));
        if !vm.load_elf(elf, &mut self.frames) {
            return None;
        }
        if self.frames.free < crate::stack::STACK_DEF_PAGE {
            self.frames.release(elf.pages);
            return None;
        }
        let stack_top = vm.init_stack(&mut self.frames, pid.0);
        let data = match proc_data {
            Some(d) => d,
            None => ProcessData::new(),
        };
        let mut proc = Process::new(name, Some(self.current), vm, data, pid);
        proc.write().init_stack_frame(elf.entry, stack_top);
        proof {
            assert(!has_pid(m0.procs(), pid)) by {
                if has_pid(m0.procs(), pid) {
                    let k = choose|k: int|
                        0 <= k < m0.procs().len() && (#[trigger] m0.procs()[k]).pid == pid;
                    assert(m0.procs()[k].pid.0 < m0.pids.next);
                }
            }
            lemma_push_new_pid(m0.procs(), proc);
            lemma_total_mapped_push(m0.procs(), proc);
        }
        self.processes.push(proc);
        self.ready_queue.push(pid);
        proof {
            lemma_wf_after_spawn(m0, *self, pid);
        }
        Some(pid)
    }

    /// Optional spawn data must be well formed.
    pub open spec fn proc_data_wf_opt(self, d: Option<ProcessData>) -> bool {
        match d {
            Some(d) => d.wf(),
            None => true,
        }
    }

    /// Index of `pid`'s record.
    pub fn find_proc(&self, pid: ProcessId) -> (r: Option<usize>)
        ensures
            match r {
                Some(i) => 0 <= i < self.procs().len() && self.procs()[i as int].pid == pid,
                None => !self.has_proc(pid),
            },
    {
        let mut i: usize = 0;
        while i < self.processes.len()
            invariant
                0 <= i <= self.procs().len(),
                forall|j: int| 0 <= j < i ==> (#[trigger] self.procs()[j]).pid != pid,
            decreases self.procs().len() - i,
        {
            if self.processes[i].pid.0 == pid.0 {
                return Some(i);
            }
            i = i + 1;
        }
        None
    }
}

/// With distinct pids, any index holding `pid` is the index `idx_of` picks.
pub proof fn lemma_idx_of_unique(s: Seq<Process>, pid: ProcessId, i: int)
    requires
        0 <= i < s.len(),
        s[i].pid == pid,
        table_distinct(s),
    ensures
        idx_of(s, pid) == i,
        has_pid(s, pid),
        proc_at(s, pid) == s[i],
{
    assert(0 <= idx_of(s, pid) < s.len() && s[idx_of(s, pid)].pid == pid);
    let j = idx_of(s, pid);
    if i < j {
        assert(s[i].pid != s[j].pid);
    } else if j < i {
        assert(s[j].pid != s[i].pid);
    }
}

impl ProcessManager {
    /// No process is Running (the CPU is between contexts).
    pub open spec fn no_running(self) -> bool {
        forall|k: int|
            0 <= k < self.procs().len() ==> (#[trigger] self.procs()[k]).inner.status
                != ProgramStatus::Running
    }
}

/// Popping the ready-queue head into the Running state preserves the
/// manager's invariant, provided nothing was Running before.
pub proof fn lemma_wf_after_pop(m1: ProcessManager, m2: ProcessManager)
    requires
        m1.wf(),
        m1.no_running(),
        m1.ready_queue@.len() > 0,
        ({
            let h = m1.ready_queue@[0];
            let j = idx_of(m1.procs(), h);
            let p = m1.procs()[j];
            &&& m2.processes@ == m1.procs().update(
                j,
                Process {
                    pid: p.pid,
                    inner: ProcessInner { status: ProgramStatus::Running, ..p.inner },
                },
            )
            &&& m2.ready_queue@ == m1.ready_queue@.drop_first()
            &&& m2.current == h
            &&& m2.waiters == m1.waiters
            &&& m2.semaphores == m1.semaphores
            &&& m2.pids == m1.pids
            &&& m2.frames == m1.frames
        }),
    ensures
        m2.wf(),
        m2.status_of(m2.current) == ProgramStatus::Running,
        m2.proc_of(m2.current).inner == (ProcessInner {
            status: ProgramStatus::Running,
            ..m1.proc_of(m1.ready_queue@[0]).inner
        }),
        forall|q: ProcessId| #[trigger] m2.has_proc(q) == m1.has_proc(q),
        forall|q: ProcessId|
            q != m1.ready_queue@[0] && m1.has_proc(q) ==> #[trigger] m2.proc_of(q) == m1.proc_of(
                q,
            ),
{
    let h = m1.ready_queue@[0];
    assert(m1.has_proc(h) && m1.status_of(h) == ProgramStatus::Ready);
    let j = idx_of(m1.procs(), h);
    assert(0 <= j < m1.procs().len() && m1.procs()[j].pid == h);
    let p = m1.procs()[j];
    let p2 = Process {
        pid: p.pid,
        inner: ProcessInner { status: ProgramStatus::Running, ..p.inner },
    };
    lemma_update_same_pid(m1.procs(), j, p2);
    lemma_total_mapped_update(m1.procs(), j, p2);
    let q1 = m1.ready_queue@;
    let q2 = m2.ready_queue@;
    // pid bounds
    assert forall|k: int| 0 <= k < m2.procs().len() implies 1 <= (#[trigger] m2.procs()[k]).pid.0
        < m2.pids.next by {
        assert(m2.procs()[k].pid == m1.procs()[k].pid);
    }
    // queue members and coverage
    assert forall|x: int|
        0 <= x < q2.len() implies m2.has_proc(#[trigger] q2[x]) && m2.status_of(q2[x])
        == ProgramStatus::Ready by {
        assert(q2[x] == q1[x + 1]);
        assert(m1.has_proc(q1[x + 1]) && m1.status_of(q1[x + 1]) == ProgramStatus::Ready);
        assert(q1[x + 1] != q1[0]);
        assert(m2.proc_of(q2[x]) == m1.proc_of(q1[x + 1]));
    }
    assert forall|a: int, b: int| 0 <= a < b < q2.len() implies (#[trigger] q2[a]) != (
    #[trigger] q2[b]) by {
        assert(q2[a] == q1[a + 1] && q2[b] == q1[b + 1]);
    }
    assert forall|k: int|
        0 <= k < m2.procs().len() && (#[trigger] m2.procs()[k]).inner.status
            == ProgramStatus::Ready implies q2.contains(m2.procs()[k].pid) by {
        assert(k != j);
        assert(m2.procs()[k] == m1.procs()[k]);
        assert(q1.contains(m1.procs()[k].pid));
        let t = choose|t: int| 0 <= t < q1.len() && q1[t] == m1.procs()[k].pid;
        assert(m1.procs()[k].pid != h);
        assert(t >= 1);
        assert(q2[t - 1] == m1.procs()[k].pid);
    }
    // membership predicates carry over
    assert forall|q: ProcessId| #[trigger] m2.in_waiters(q) == m1.in_waiters(q) by {}
    assert forall|q: ProcessId| #[trigger] m2.in_sems(q) == m1.in_sems(q) by {}
    // waiters statuses
    assert forall|x: int|
        0 <= x < m2.waiters@.len() implies m2.has_proc((#[trigger] m2.waiters@[x]).0) && (
        m2.status_of(m2.waiters@[x].0) == ProgramStatus::Blocked || m2.status_of(
            m2.waiters@[x].0,
        ) == ProgramStatus::Dead) by {
        let w = m2.waiters@[x].0;
        assert(m1.has_proc(w));
        assert(w != h);
        assert(m2.proc_of(w) == m1.proc_of(w));
    }
    // semaphore waiter statuses
    assert forall|x: int, a: int|
        0 <= x < m2.semaphores.sems@.len() && 0 <= a < (#[trigger] m2.semaphores.sems@[
            x
        ]).1.waiters@.len() implies m2.has_proc(
        #[trigger] m2.semaphores.sems@[x].1.waiters@[a],
    ) && m2.status_of(m2.semaphores.sems@[x].1.waiters@[a]) == ProgramStatus::Blocked by {
        let w = m2.semaphores.sems@[x].1.waiters@[a];
        assert(m1.has_proc(w) && m1.status_of(w) == ProgramStatus::Blocked);
        assert(w != h);
        assert(m2.proc_of(w) == m1.proc_of(w));
    }
    // statuses agree with the structures
    assert(m2.has_proc(m2.current));
    assert forall|k: int| 0 <= k < m2.procs().len() implies {
        let pk = #[trigger] m2.procs()[k];
        &&& (pk.inner.status == ProgramStatus::Running ==> pk.pid == m2.current)
        &&& (pk.inner.status == ProgramStatus::Blocked ==> m2.in_waiters(pk.pid) || m2.in_sems(
            pk.pid,
        ))
        &&& (pk.inner.status == ProgramStatus::Ready || pk.inner.status == ProgramStatus::Running
            ==> !m2.in_waiters(pk.pid) && !m2.in_sems(pk.pid))
        &&& (pk.inner.status == ProgramStatus::Dead ==> !m2.in_sems(pk.pid))
    } by {
        let pk = m2.procs()[k];
        if k == j {
            assert(pk == p2);
            assert(m1.procs()[j].inner.status == ProgramStatus::Ready);
            assert(!m1.in_waiters(h) && !m1.in_sems(h));
        } else {
            assert(pk == m1.procs()[k]);
        }
    }
    // per-process sanity and slots
    assert forall|k: int| 0 <= k < m2.procs().len() implies {
        let pk = #[trigger] m2.procs()[k];
        &&& (pk.inner.status == ProgramStatus::Dead <==> pk.inner.proc_vm is None)
        &&& (pk.inner.status == ProgramStatus::Dead <==> pk.inner.proc_data is None)
        &&& (pk.inner.status == ProgramStatus::Dead <==> pk.inner.exit_code is Some)
        &&& (pk.inner.proc_vm matches Some(vm) ==> vm.wf() && vm.stack.usage >= 1)
        &&& (pk.inner.proc_data matches Some(d) ==> d.wf())
    } by {
        if k == j {
            assert(m1.procs()[j].inner.status == ProgramStatus::Ready);
        } else {
            assert(m2.procs()[k] == m1.procs()[k]);
        }
    }
    assert forall|a: int, b: int|
        (0 <= a < m2.procs().len() && 0 <= b < m2.procs().len() && a != b && ((
        #[trigger] m2.procs()[a]).inner.proc_vm matches Some(_)) && ((#[trigger] m2.procs()[
            b
        ]).inner.proc_vm matches Some(_))) implies crate::stack::window_base(
        m2.procs()[a].inner.proc_vm->Some_0.stack.bottom,
    ) != crate::stack::window_base(m2.procs()[b].inner.proc_vm->Some_0.stack.bottom) by {
        assert(m2.procs()[a].inner.proc_vm == m1.procs()[a].inner.proc_vm);
        assert(m2.procs()[b].inner.proc_vm == m1.procs()[b].inner.proc_vm);
    }
    assert(p2.owned_pages() == p.owned_pages());
    assert(m2.frames_wf());
    assert(m2.proc_of(h) == p2);
}

/// The waiters (in order) blocked until `t` exits.
pub open spec fn waiting_on(s: Seq<(ProcessId, ProcessId)>, t: ProcessId) -> Seq<ProcessId>
    decreases s.len(),
{
    if s.len() == 0 {
        Seq::empty()
    } else if s[0].1 == t {
        seq![s[0].0] + waiting_on(s.drop_first(), t)
    } else {
        waiting_on(s.drop_first(), t)
    }
}

/// With no pending wakeups the relaxed invariant is the invariant.
pub proof fn lemma_wf_from_no_pending(m: ProcessManager)
    requires
        m.wf_except_blocked(Seq::<ProcessId>::empty()),
    ensures
        m.wf(),
{
}

/// Removing the pair at `i` (whose target is `cur`, with a clean prefix)
/// keeps the relaxed invariant, since its waiter heads the pending list; the
/// waiter is ready to be woken.
proof fn lemma_wf_after_pair_removal(
    m_pre: ProcessManager,
    m_post: ProcessManager,
    i: int,
    cur: ProcessId,
    pending: Seq<ProcessId>,
)
    requires
        0 <= i < m_pre.waiters@.len(),
        m_pre.waiters@[i].1 == cur,
        pending == waiting_on(m_pre.waiters@.skip(i), cur),
        m_pre.wf_except_blocked(pending),
        m_post.waiters@ == m_pre.waiters@.remove(i),
        m_post == (ProcessManager { waiters: m_post.waiters, ..m_pre }),
    ensures
        m_post.wf_except_blocked(pending),
        pending.len() > 0,
        pending[0] == m_pre.waiters@[i].0,
        m_post.has_proc(m_pre.waiters@[i].0),
        m_post.status_of(m_pre.waiters@[i].0) == ProgramStatus::Blocked || m_post.status_of(
            m_pre.waiters@[i].0,
        ) == ProgramStatus::Dead,
        !m_post.in_waiters(m_pre.waiters@[i].0),
        !m_post.in_sems(m_pre.waiters@[i].0),
{
    let s = m_pre.waiters@;
    let s2 = m_post.waiters@;
    let w = s[i].0;
    assert(s.skip(i)[0] == s[i]);
    assert(pending[0] == w);
    assert(m_pre.has_proc(w) && (m_pre.status_of(w) == ProgramStatus::Blocked || m_pre.status_of(
        w,
    ) == ProgramStatus::Dead));
    assert(!m_pre.in_sems(w));
    // no other pair names w
    assert forall|x: int| 0 <= x < s2.len() implies (#[trigger] s2[x]).0 != w by {
        if x < i {
            assert(s2[x] == s[x]);
        } else {
            assert(s2[x] == s[x + 1]);
        }
    }
    assert(!m_post.in_waiters(w));
    // remaining pairs keep their properties
    assert forall|x: int, y: int| 0 <= x < y < s2.len() implies (#[trigger] s2[x]).0 != (
    #[trigger] s2[y]).0 by {
        let x0: int = if x < i {
            x
        } else {
            x + 1
        };
        let y0: int = if y < i {
            y
        } else {
            y + 1
        };
        assert(s2[x] == s[x0] && s2[y] == s[y0]);
    }
    assert forall|x: int|
        0 <= x < s2.len() implies m_post.has_proc((#[trigger] s2[x]).0) && (m_post.status_of(
        s2[x].0,
    ) == ProgramStatus::Blocked || m_post.status_of(s2[x].0) == ProgramStatus::Dead)
        && !m_post.in_sems(s2[x].0) by {
        let x0: int = if x < i {
            x
        } else {
            x + 1
        };
        assert(s2[x] == s[x0]);
    }
    // blocked processes stay covered
    assert forall|k: int|
        0 <= k < m_post.procs().len() && (#[trigger] m_post.procs()[k]).inner.status
            == ProgramStatus::Blocked implies m_post.in_waiters(m_post.procs()[k].pid)
        || m_post.in_sems(m_post.procs()[k].pid) || pending.contains(m_post.procs()[k].pid) by {
        let q = m_post.procs()[k].pid;
        if m_pre.in_waiters(q) {
            let y = choose|y: int| 0 <= y < s.len() && (#[trigger] s[y]).0 == q;
            if y == i {
                assert(pending[0] == q);
            } else {
                let y2: int = if y < i {
                    y
                } else {
                    y - 1
                };
                assert(s2[y2] == s[y]);
                assert(m_post.in_waiters(q));
            }
        }
    }
}

/// One step of the wake loop: after removing the pair at `i` and waking its
/// waiter, every loop invariant holds again at the same scan position.
#[verifier::spinoff_prover]
#[verifier::rlimit(80)]
proof fn lemma_wake_step(
    m0: ProcessManager,
    m_pre: ProcessManager,
    m_mid: ProcessManager,
    mn: ProcessManager,
    i: int,
    cur: ProcessId,
    w: ProcessId,
    ret: isize,
)
    requires
        m0.wf(),
        // loop invariants at entry, for m_pre
        m_pre.current == m0.current,
        m_pre.semaphores == m0.semaphores,
        m_pre.pids == m0.pids,
        m_pre.frames == m0.frames,
        0 <= i < m_pre.waiters@.len(),
        m_pre.waiters@[i] == (w, cur),
        forall|x: int, y: int|
            0 <= x < y < m_pre.waiters@.len() ==> (#[trigger] m_pre.waiters@[x]).0 != (
            #[trigger] m_pre.waiters@[y]).0,
        forall|x: int| 0 <= x < i ==> (#[trigger] m_pre.waiters@[x]).1 != cur,
        forall|x: int|
            0 <= x < m_pre.waiters@.len() ==> m0.waiters@.contains(#[trigger] m_pre.waiters@[x]),
        forall|x: int|
            0 <= x < m0.waiters@.len() && (#[trigger] m0.waiters@[x]).1 == cur
                && m_pre.waiters@.contains(m0.waiters@[x]) ==> m_pre.proc_of(m0.waiters@[x].0)
                == m0.proc_of(m0.waiters@[x].0),
        forall|x: int|
            0 <= x < m0.waiters@.len() && (#[trigger] m0.waiters@[x]).1 == cur
                && !m_pre.waiters@.contains(m0.waiters@[x]) ==> ProcessManager::woke_waiter(
                m0,
                m_pre,
                m0.waiters@[x].0,
                ret,
            ),
        forall|q: ProcessId|
            m0.has_proc(q) && !m0.waiters@.contains((q, cur)) ==> #[trigger] m_pre.proc_of(q)
                == m0.proc_of(q),
        forall|q: ProcessId|
            m0.has_proc(q) && m0.status_of(q) == ProgramStatus::Dead ==> #[trigger] m_pre.proc_of(
                q,
            ) == m0.proc_of(q),
        forall|q: ProcessId| #[trigger] m_pre.has_proc(q) == m0.has_proc(q),
        // the removal step
        m_mid.waiters@ == m_pre.waiters@.remove(i),
        m_mid == (ProcessManager { waiters: m_mid.waiters, ..m_pre }),
        m_mid.has_proc(w),
        m_mid.status_of(w) == ProgramStatus::Blocked || m_mid.status_of(w) == ProgramStatus::Dead,
        // the wake step
        mn.wf_except_blocked(
            waiting_on(m_pre.waiters@.skip(i), cur).drop_first(),
        ),
        m_mid.status_of(w) == ProgramStatus::Blocked ==> ({
            let iw = idx_of(m_mid.procs(), w);
            let p = m_mid.procs()[iw];
            &&& mn.processes@ == m_mid.procs().update(
                iw,
                Process {
                    pid: p.pid,
                    inner: ProcessInner {
                        status: ProgramStatus::Ready,
                        context: (ProcessContext { rax: ret as u64, ..p.inner.context }),
                        ..p.inner
                    },
                },
            )
            &&& mn.ready_queue@ == m_mid.ready_queue@.push(w)
        }),
        m_mid.status_of(w) == ProgramStatus::Dead ==> mn.processes@ == m_mid.processes@
            && mn.ready_queue@ == m_mid.ready_queue@,
        mn.waiters == m_mid.waiters,
        mn.semaphores == m_mid.semaphores,
        mn.current == m_mid.current,
        mn.pids == m_mid.pids,
        mn.frames == m_mid.frames,
        forall|q: ProcessId| #[trigger] mn.has_proc(q) == m_mid.has_proc(q),
        forall|q: ProcessId|
            q != w && m_mid.has_proc(q) ==> #[trigger] mn.proc_of(q) == m_mid.proc_of(q),
        m_mid.status_of(w) == ProgramStatus::Blocked ==> mn.proc_of(w).inner == (ProcessInner {
            status: ProgramStatus::Ready,
            context: (ProcessContext { rax: ret as u64, ..m_mid.proc_of(w).inner.context }),
            ..m_mid.proc_of(w).inner
        }),
        m_mid.status_of(w) == ProgramStatus::Dead ==> mn.proc_of(w) == m_mid.proc_of(w),
    ensures
        mn.wf_except_blocked(waiting_on(mn.waiters@.skip(i), cur)),
        forall|x: int| 0 <= x < i ==> (#[trigger] mn.waiters@[x]).1 != cur,
        forall|x: int|
            0 <= x < mn.waiters@.len() ==> m0.waiters@.contains(#[trigger] mn.waiters@[x]),
        forall|x: int|
            0 <= x < m0.waiters@.len() && (#[trigger] m0.waiters@[x]).1 == cur
                && mn.waiters@.contains(m0.waiters@[x]) ==> mn.proc_of(m0.waiters@[x].0)
                == m0.proc_of(m0.waiters@[x].0),
        forall|x: int|
            0 <= x < m0.waiters@.len() && (#[trigger] m0.waiters@[x]).1 == cur
                && !mn.waiters@.contains(m0.waiters@[x]) ==> ProcessManager::woke_waiter(
                m0,
                mn,
                m0.waiters@[x].0,
                ret,
            ),
        forall|q: ProcessId|
            m0.has_proc(q) && !m0.waiters@.contains((q, cur)) ==> #[trigger] mn.proc_of(q)
                == m0.proc_of(q),
        forall|q: ProcessId|
            m0.has_proc(q) && m0.status_of(q) == ProgramStatus::Dead ==> #[trigger] mn.proc_of(
                q,
            ) == m0.proc_of(q),
        forall|q: ProcessId| #[trigger] mn.has_proc(q) == m0.has_proc(q),
        mn.current == m0.current,
        mn.semaphores == m0.semaphores,
        mn.pids == m0.pids,
        mn.frames == m0.frames,
{
    let s_pre = m_pre.waiters@;
    let s2 = mn.waiters@;
    assert(m_mid.procs() == m_pre.procs());
    assert forall|q: ProcessId| #[trigger] m_mid.has_proc(q) == m_pre.has_proc(q) by {}
    assert forall|q: ProcessId|
        m_pre.has_proc(q) implies #[trigger] m_mid.proc_of(q) == m_pre.proc_of(q) by {}
    assert forall|q: ProcessId| #[trigger] mn.has_proc(q) == m0.has_proc(q) by {
        assert(mn.has_proc(q) == m_mid.has_proc(q));
        assert(m_mid.has_proc(q) == m_pre.has_proc(q));
    }
    assert(s_pre.skip(i)[0] == s_pre[i]);
    assert(s_pre.skip(i).drop_first() =~= s_pre.skip(i + 1));
    assert(s2.skip(i) =~= s_pre.skip(i + 1));
    assert(waiting_on(mn.waiters@.skip(i), cur) == waiting_on(s_pre.skip(i), cur).drop_first());
    // prefix and subset
    assert forall|x: int| 0 <= x < i implies (#[trigger] s2[x]).1 != cur by {
        assert(s2[x] == s_pre[x]);
    }
    assert forall|x: int| 0 <= x < s2.len() implies m0.waiters@.contains(#[trigger] s2[x]) by {
        let x0: int = if x < i {
            x
        } else {
            x + 1
        };
        assert(s2[x] == s_pre[x0]);
    }
    // w is no longer a waiter anywhere in the kept map
    assert(m0.waiters@.contains(s_pre[i]));
    assert forall|x: int| 0 <= x < s2.len() implies (#[trigger] s2[x]).0 != w by {
        let x0: int = if x < i {
            x
        } else {
            x + 1
        };
        assert(s2[x] == s_pre[x0]);
        assert(x0 != i);
        assert(s_pre[x0].0 != s_pre[i].0);
    }
    // a process that never waited on the target is untouched: the woken
    // waiter `w` stood as `(w, cur)` in the original map
    assert forall|q: ProcessId|
        m0.has_proc(q) && !m0.waiters@.contains((q, cur)) implies #[trigger] mn.proc_of(q)
        == m0.proc_of(q) by {
        assert(m0.waiters@.contains(s_pre[i])) by {
            assert(s_pre.contains(s_pre[i]));
        }
        assert(q != w);
        assert(m_pre.has_proc(q) && m_mid.has_proc(q));
        assert(mn.proc_of(q) == m_mid.proc_of(q));
        assert(m_mid.proc_of(q) == m_pre.proc_of(q));
    }
    // a Dead process is untouched: the wake step skips Dead waiters
    assert forall|q: ProcessId|
        m0.has_proc(q) && m0.status_of(q) == ProgramStatus::Dead implies #[trigger] mn.proc_of(
        q,
    ) == m0.proc_of(q) by {
        if q == w {
            assert(m_pre.proc_of(w) == m0.proc_of(w)) by {
                assert(s_pre.contains(s_pre[i]));
                assert(m0.waiters@.contains(s_pre[i]));
                let x = choose|x: int|
                    0 <= x < m0.waiters@.len() && #[trigger] m0.waiters@[x] == s_pre[i];
                assert(m0.waiters@[x].1 == cur && m_pre.waiters@.contains(m0.waiters@[x]));
            }
            assert(m_mid.proc_of(w) == m_pre.proc_of(w));
            assert(m_mid.status_of(w) == ProgramStatus::Dead);
            assert(mn.proc_of(w) == m_mid.proc_of(w));
        } else {
            assert(m_pre.has_proc(q) && m_mid.has_proc(q));
            assert(mn.proc_of(q) == m_mid.proc_of(q));
            assert(m_mid.proc_of(q) == m_pre.proc_of(q));
        }
    }
    // still-present pairs keep their waiters
    assert forall|x: int|
        0 <= x < m0.waiters@.len() && (#[trigger] m0.waiters@[x]).1 == cur && s2.contains(
            m0.waiters@[x],
        ) implies mn.proc_of(m0.waiters@[x].0) == m0.proc_of(m0.waiters@[x].0) by {
        let v = m0.waiters@[x].0;
        let y = choose|y: int| 0 <= y < s2.len() && s2[y] == m0.waiters@[x];
        assert(s2[y].0 == v);
        assert(v != w);
        let y0: int = if y < i {
            y
        } else {
            y + 1
        };
        assert(s_pre[y0] == m0.waiters@[x]);
        assert(s_pre.contains(m0.waiters@[x]));
        assert(m_pre.proc_of(v) == m0.proc_of(v));
        assert(m0.has_proc(v));
        assert(m_mid.has_proc(v));
        assert(mn.proc_of(v) == m_mid.proc_of(v));
    }
    // dropped pairs mean woken waiters
    assert forall|x: int|
        0 <= x < m0.waiters@.len() && (#[trigger] m0.waiters@[x]).1 == cur && !s2.contains(
            m0.waiters@[x],
        ) implies ProcessManager::woke_waiter(m0, mn, m0.waiters@[x].0, ret) by {
        let v = m0.waiters@[x].0;
        if m0.waiters@[x] == s_pre[i] {
            assert(v == w);
            assert(s_pre.contains(m0.waiters@[x]));
            assert(m_pre.proc_of(w) == m0.proc_of(w));
            assert(m_mid.proc_of(w) == m_pre.proc_of(w));
            assert(m_mid.status_of(w) == m0.status_of(w));
            if m0.status_of(w) == ProgramStatus::Blocked {
                assert(mn.ready_queue@[mn.ready_queue@.len() - 1] == w);
                assert(mn.ready_queue@.contains(w));
            }
        } else {
            if s_pre.contains(m0.waiters@[x]) {
                let y = choose|y: int| 0 <= y < s_pre.len() && s_pre[y] == m0.waiters@[x];
                assert(y != i);
                let y2: int = if y < i {
                    y
                } else {
                    y - 1
                };
                assert(s2[y2] == s_pre[y]);
                assert(false);
            }
            assert(ProcessManager::woke_waiter(m0, m_pre, v, ret));
            assert(v != w) by {
                if v == w {
                    // the pair for v would be the removed pair, which does
                    // sit in the pre-scan map
                    let xw = choose|a: int|
                        0 <= a < m0.waiters@.len() && #[trigger] m0.waiters@[a] == s_pre[i];
                    if x != xw {
                        assert(m0.waiters@[x].0 != m0.waiters@[xw].0);
                    } else {
                        assert(s_pre.contains(m0.waiters@[x]));
                    }
                }
            }
            assert(m0.has_proc(v));
            assert(m_mid.has_proc(v));
            assert(mn.proc_of(v) == m_mid.proc_of(v));
            assert(m_mid.proc_of(v) == m_pre.proc_of(v));
            if m0.status_of(v) == ProgramStatus::Blocked && m_pre.ready_queue@.contains(v) {
                let t = choose|t: int|
                    0 <= t < m_pre.ready_queue@.len() && m_pre.ready_queue@[t] == v;
                assert(mn.ready_queue@[t] == v);
            }
        }
    }
}

/// Skipping a Dead waiter keeps the relaxed invariant while shortening the
/// pending list.
proof fn lemma_wake_one_dead(m0: ProcessManager, pending: Seq<ProcessId>, w: ProcessId)
    requires
        m0.wf_except_blocked(pending),
        pending.len() > 0,
        pending[0] == w,
        m0.has_proc(w),
        m0.status_of(w) == ProgramStatus::Dead,
    ensures
        m0.wf_except_blocked(pending.drop_first()),
{
    assert forall|k: int|
        0 <= k < m0.procs().len() && (#[trigger] m0.procs()[k]).inner.status
            == ProgramStatus::Blocked implies m0.in_waiters(m0.procs()[k].pid) || m0.in_sems(
        m0.procs()[k].pid,
    ) || pending.drop_first().contains(m0.procs()[k].pid) by {
        let q = m0.procs()[k].pid;
        if !m0.in_waiters(q) && !m0.in_sems(q) {
            let t = choose|t: int| 0 <= t < pending.len() && pending[t] == q;
            if t == 0 {
                lemma_idx_of_unique(m0.procs(), q, k);
            } else {
                assert(pending.drop_first()[t - 1] == q);
            }
        }
    }
}

/// Waking one Blocked pid (made Ready, return value written, enqueued last)
/// keeps the relaxed invariant while shortening the pending list.
proof fn lemma_wake_one_blocked(
    m0: ProcessManager,
    m1: ProcessManager,
    pending: Seq<ProcessId>,
    w: ProcessId,
    ret: isize,
    i: int,
)
    requires
        m0.wf_except_blocked(pending),
        pending.len() > 0,
        pending[0] == w,
        m0.has_proc(w),
        m0.status_of(w) == ProgramStatus::Blocked,
        !m0.in_waiters(w),
        !m0.in_sems(w),
        i == idx_of(m0.procs(), w),
        ({
            let p = m0.procs()[i];
            &&& m1.processes@ == m0.procs().update(
                i,
                Process {
                    pid: p.pid,
                    inner: ProcessInner {
                        status: ProgramStatus::Ready,
                        context: (ProcessContext { rax: ret as u64, ..p.inner.context }),
                        ..p.inner
                    },
                },
            )
            &&& m1.ready_queue@ == m0.ready_queue@.push(w)
            &&& m1.waiters == m0.waiters
            &&& m1.semaphores == m0.semaphores
            &&& m1.current == m0.current
            &&& m1.pids == m0.pids
            &&& m1.frames == m0.frames
        }),
    ensures
        m1.wf_except_blocked(pending.drop_first()),
        forall|q: ProcessId| #[trigger] m1.has_proc(q) == m0.has_proc(q),
        forall|q: ProcessId|
            q != w && m0.has_proc(q) ==> #[trigger] m1.proc_of(q) == m0.proc_of(q),
{
    assert(0 <= i < m0.procs().len() && m0.procs()[i].pid == w);
    let p = m0.procs()[i];
    let p2 = m1.processes@[i];
    lemma_update_same_pid(m0.procs(), i, p2);
    lemma_total_mapped_update(m0.procs(), i, p2);
    let q0 = m0.ready_queue@;
    let q1 = m1.ready_queue@;
    assert forall|k: int| 0 <= k < m1.procs().len() implies 1 <= (#[trigger] m1.procs()[k]).pid.0
        < m1.pids.next by {
        assert(m1.procs()[k].pid == m0.procs()[k].pid);
    }
    assert forall|x: int|
        0 <= x < q1.len() implies m1.has_proc(#[trigger] q1[x]) && m1.status_of(q1[x])
        == ProgramStatus::Ready by {
        if x < q0.len() {
            assert(m0.has_proc(q0[x]) && m0.status_of(q0[x]) == ProgramStatus::Ready);
            assert(q1[x] != w);
            assert(m1.proc_of(q1[x]) == m0.proc_of(q0[x]));
        } else {
            assert(q1[x] == w);
            assert(m1.proc_of(w) == p2);
        }
    }
    assert forall|a: int, b: int| 0 <= a < b < q1.len() implies (#[trigger] q1[a]) != (
    #[trigger] q1[b]) by {
        if b == q1.len() - 1 {
            assert(q1[a] == q0[a]);
            assert(m0.status_of(q0[a]) == ProgramStatus::Ready);
        }
    }
    assert forall|k: int|
        0 <= k < m1.procs().len() && (#[trigger] m1.procs()[k]).inner.status
            == ProgramStatus::Ready implies q1.contains(m1.procs()[k].pid) by {
        if k == i {
            assert(q1[q1.len() - 1] == w);
        } else {
            assert(m1.procs()[k] == m0.procs()[k]);
            assert(q0.contains(m0.procs()[k].pid));
            let t = choose|t: int| 0 <= t < q0.len() && q0[t] == m0.procs()[k].pid;
            assert(q1[t] == m0.procs()[k].pid);
        }
    }
    assert forall|q: ProcessId| #[trigger] m1.in_waiters(q) == m0.in_waiters(q) by {}
    assert forall|q: ProcessId| #[trigger] m1.in_sems(q) == m0.in_sems(q) by {}
    assert forall|x: int|
        0 <= x < m1.waiters@.len() implies m1.has_proc((#[trigger] m1.waiters@[x]).0) && (
        m1.status_of(m1.waiters@[x].0) == ProgramStatus::Blocked || m1.status_of(
            m1.waiters@[x].0,
        ) == ProgramStatus::Dead) by {
        let v = m1.waiters@[x].0;
        assert(m0.has_proc(v));
        assert(v != w);
        assert(m1.proc_of(v) == m0.proc_of(v));
    }
    assert forall|x: int, a: int|
        0 <= x < m1.semaphores.sems@.len() && 0 <= a < (#[trigger] m1.semaphores.sems@[
            x
        ]).1.waiters@.len() implies m1.has_proc(
        #[trigger] m1.semaphores.sems@[x].1.waiters@[a],
    ) && m1.status_of(m1.semaphores.sems@[x].1.waiters@[a]) == ProgramStatus::Blocked by {
        let v = m1.semaphores.sems@[x].1.waiters@[a];
        assert(m0.has_proc(v) && m0.status_of(v) == ProgramStatus::Blocked);
        if v == w {
            assert(m0.semaphores.sems@[x].1@.waiters[a] == w);
            assert(m0.semaphores.sems@[x].1@.waiters.contains(w));
            assert(m0.in_sems(w));
        }
        assert(v != w);
        assert(m1.proc_of(v) == m0.proc_of(v));
    }
    assert(m1.has_proc(m1.current));
    assert forall|k: int| 0 <= k < m1.procs().len() implies {
        let pk = #[trigger] m1.procs()[k];
        &&& (pk.inner.status == ProgramStatus::Running ==> pk.pid == m1.current)
        &&& (pk.inner.status == ProgramStatus::Blocked ==> m1.in_waiters(pk.pid) || m1.in_sems(
            pk.pid,
        ) || pending.drop_first().contains(pk.pid))
        &&& (pk.inner.status == ProgramStatus::Ready || pk.inner.status == ProgramStatus::Running
            ==> !m1.in_waiters(pk.pid) && !m1.in_sems(pk.pid))
        &&& (pk.inner.status == ProgramStatus::Dead ==> !m1.in_sems(pk.pid))
    } by {
        let pk = m1.procs()[k];
        if k == i {
            assert(pk == p2);
        } else {
            assert(pk == m0.procs()[k]);
            if pk.inner.status == ProgramStatus::Blocked && !m1.in_waiters(pk.pid) && !m1.in_sems(
                pk.pid,
            ) {
                let t = choose|t: int| 0 <= t < pending.len() && pending[t] == pk.pid;
                if t == 0 {
                    lemma_idx_of_unique(m0.procs(), pk.pid, k);
                } else {
                    assert(pending.drop_first()[t - 1] == pk.pid);
                }
            }
        }
    }
    assert forall|k: int| 0 <= k < m1.procs().len() implies {
        let pk = #[trigger] m1.procs()[k];
        &&& (pk.inner.status == ProgramStatus::Dead <==> pk.inner.proc_vm is None)
        &&& (pk.inner.status == ProgramStatus::Dead <==> pk.inner.proc_data is None)
        &&& (pk.inner.status == ProgramStatus::Dead <==> pk.inner.exit_code is Some)
        &&& (pk.inner.proc_vm matches Some(vm) ==> vm.wf() && vm.stack.usage >= 1)
        &&& (pk.inner.proc_data matches Some(d) ==> d.wf())
    } by {
        if k == i {
            assert(m0.procs()[i].inner.status == ProgramStatus::Blocked);
        } else {
            assert(m1.procs()[k] == m0.procs()[k]);
        }
    }
    assert forall|a: int, b: int|
        (0 <= a < m1.procs().len() && 0 <= b < m1.procs().len() && a != b && ((
        #[trigger] m1.procs()[a]).inner.proc_vm matches Some(_)) && ((#[trigger] m1.procs()[
            b
        ]).inner.proc_vm matches Some(_))) implies crate::stack::window_base(
        m1.procs()[a].inner.proc_vm->Some_0.stack.bottom,
    ) != crate::stack::window_base(m1.procs()[b].inner.proc_vm->Some_0.stack.bottom) by {
        assert(m1.procs()[a].inner.proc_vm == m0.procs()[a].inner.proc_vm);
        assert(m1.procs()[b].inner.proc_vm == m0.procs()[b].inner.proc_vm);
    }
    assert(p2.owned_pages() == p.owned_pages());
    assert(m1.frames_wf());
}

/// Waking one Blocked pid (made Ready, return register untouched, enqueued last)
/// keeps the relaxed invariant while shortening the pending list.
proof fn lemma_wake_up_blocked(
    m0: ProcessManager,
    m1: ProcessManager,
    pending: Seq<ProcessId>,
    w: ProcessId,
    i: int,
)
    requires
        m0.wf_except_blocked(pending),
        pending.len() > 0,
        pending[0] == w,
        m0.has_proc(w),
        m0.status_of(w) == ProgramStatus::Blocked,
        !m0.in_waiters(w),
        !m0.in_sems(w),
        i == idx_of(m0.procs(), w),
        ({
            let p = m0.procs()[i];
            &&& m1.processes@ == m0.procs().update(
                i,
                Process {
                    pid: p.pid,
                    inner: ProcessInner { status: ProgramStatus::Ready, ..p.inner },
                },
            )
            &&& m1.ready_queue@ == m0.ready_queue@.push(w)
            &&& m1.waiters == m0.waiters
            &&& m1.semaphores == m0.semaphores
            &&& m1.current == m0.current
            &&& m1.pids == m0.pids
            &&& m1.frames == m0.frames
        }),
    ensures
        m1.wf_except_blocked(pending.drop_first()),
        forall|q: ProcessId| #[trigger] m1.has_proc(q) == m0.has_proc(q),
        forall|q: ProcessId|
            q != w && m0.has_proc(q) ==> #[trigger] m1.proc_of(q) == m0.proc_of(q),
{
    assert(0 <= i < m0.procs().len() && m0.procs()[i].pid == w);
    let p = m0.procs()[i];
    let p2 = m1.processes@[i];
    lemma_update_same_pid(m0.procs(), i, p2);
    lemma_total_mapped_update(m0.procs(), i, p2);
    let q0 = m0.ready_queue@;
    let q1 = m1.ready_queue@;
    assert forall|k: int| 0 <= k < m1.procs().len() implies 1 <= (#[trigger] m1.procs()[k]).pid.0
        < m1.pids.next by {
        assert(m1.procs()[k].pid == m0.procs()[k].pid);
    }
    assert forall|x: int|
        0 <= x < q1.len() implies m1.has_proc(#[trigger] q1[x]) && m1.status_of(q1[x])
        == ProgramStatus::Ready by {
        if x < q0.len() {
            assert(m0.has_proc(q0[x]) && m0.status_of(q0[x]) == ProgramStatus::Ready);
            assert(q1[x] != w);
            assert(m1.proc_of(q1[x]) == m0.proc_of(q0[x]));
        } else {
            assert(q1[x] == w);
            assert(m1.proc_of(w) == p2);
        }
    }
    assert forall|a: int, b: int| 0 <= a < b < q1.len() implies (#[trigger] q1[a]) != (
    #[trigger] q1[b]) by {
        if b == q1.len() - 1 {
            assert(q1[a] == q0[a]);
            assert(m0.status_of(q0[a]) == ProgramStatus::Ready);
        }
    }
    assert forall|k: int|
        0 <= k < m1.procs().len() && (#[trigger] m1.procs()[k]).inner.status
            == ProgramStatus::Ready implies q1.contains(m1.procs()[k].pid) by {
        if k == i {
            assert(q1[q1.len() - 1] == w);
        } else {
            assert(m1.procs()[k] == m0.procs()[k]);
            assert(q0.contains(m0.procs()[k].pid));
            let t = choose|t: int| 0 <= t < q0.len() && q0[t] == m0.procs()[k].pid;
            assert(q1[t] == m0.procs()[k].pid);
        }
    }
    assert forall|q: ProcessId| #[trigger] m1.in_waiters(q) == m0.in_waiters(q) by {}
    assert forall|q: ProcessId| #[trigger] m1.in_sems(q) == m0.in_sems(q) by {}
    assert forall|x: int|
        0 <= x < m1.waiters@.len() implies m1.has_proc((#[trigger] m1.waiters@[x]).0) && (
        m1.status_of(m1.waiters@[x].0) == ProgramStatus::Blocked || m1.status_of(
            m1.waiters@[x].0,
        ) == ProgramStatus::Dead) by {
        let v = m1.waiters@[x].0;
        assert(m0.has_proc(v));
        assert(v != w);
        assert(m1.proc_of(v) == m0.proc_of(v));
    }
    assert forall|x: int, a: int|
        0 <= x < m1.semaphores.sems@.len() && 0 <= a < (#[trigger] m1.semaphores.sems@[
            x
        ]).1.waiters@.len() implies m1.has_proc(
        #[trigger] m1.semaphores.sems@[x].1.waiters@[a],
    ) && m1.status_of(m1.semaphores.sems@[x].1.waiters@[a]) == ProgramStatus::Blocked by {
        let v = m1.semaphores.sems@[x].1.waiters@[a];
        assert(m0.has_proc(v) && m0.status_of(v) == ProgramStatus::Blocked);
        if v == w {
            assert(m0.semaphores.sems@[x].1@.waiters[a] == w);
            assert(m0.semaphores.sems@[x].1@.waiters.contains(w));
            assert(m0.in_sems(w));
        }
        assert(v != w);
        assert(m1.proc_of(v) == m0.proc_of(v));
    }
    assert(m1.has_proc(m1.current));
    assert forall|k: int| 0 <= k < m1.procs().len() implies {
        let pk = #[trigger] m1.procs()[k];
        &&& (pk.inner.status == ProgramStatus::Running ==> pk.pid == m1.current)
        &&& (pk.inner.status == ProgramStatus::Blocked ==> m1.in_waiters(pk.pid) || m1.in_sems(
            pk.pid,
        ) || pending.drop_first().contains(pk.pid))
        &&& (pk.inner.status == ProgramStatus::Ready || pk.inner.status == ProgramStatus::Running
            ==> !m1.in_waiters(pk.pid) && !m1.in_sems(pk.pid))
        &&& (pk.inner.status == ProgramStatus::Dead ==> !m1.in_sems(pk.pid))
    } by {
        let pk = m1.procs()[k];
        if k == i {
            assert(pk == p2);
        } else {
            assert(pk == m0.procs()[k]);
            if pk.inner.status == ProgramStatus::Blocked && !m1.in_waiters(pk.pid) && !m1.in_sems(
                pk.pid,
            ) {
                let t = choose|t: int| 0 <= t < pending.len() && pending[t] == pk.pid;
                if t == 0 {
                    lemma_idx_of_unique(m0.procs(), pk.pid, k);
                } else {
                    assert(pending.drop_first()[t - 1] == pk.pid);
                }
            }
        }
    }
    assert forall|k: int| 0 <= k < m1.procs().len() implies {
        let pk = #[trigger] m1.procs()[k];
        &&& (pk.inner.status == ProgramStatus::Dead <==> pk.inner.proc_vm is None)
        &&& (pk.inner.status == ProgramStatus::Dead <==> pk.inner.proc_data is None)
        &&& (pk.inner.status == ProgramStatus::Dead <==> pk.inner.exit_code is Some)
        &&& (pk.inner.proc_vm matches Some(vm) ==> vm.wf() && vm.stack.usage >= 1)
        &&& (pk.inner.proc_data matches Some(d) ==> d.wf())
    } by {
        if k == i {
            assert(m0.procs()[i].inner.status == ProgramStatus::Blocked);
        } else {
            assert(m1.procs()[k] == m0.procs()[k]);
        }
    }
    assert forall|a: int, b: int|
        (0 <= a < m1.procs().len() && 0 <= b < m1.procs().len() && a != b && ((
        #[trigger] m1.procs()[a]).inner.proc_vm matches Some(_)) && ((#[trigger] m1.procs()[
            b
        ]).inner.proc_vm matches Some(_))) implies crate::stack::window_base(
        m1.procs()[a].inner.proc_vm->Some_0.stack.bottom,
    ) != crate::stack::window_base(m1.procs()[b].inner.proc_vm->Some_0.stack.bottom) by {
        assert(m1.procs()[a].inner.proc_vm == m0.procs()[a].inner.proc_vm);
        assert(m1.procs()[b].inner.proc_vm == m0.procs()[b].inner.proc_vm);
    }
    assert(p2.owned_pages() == p.owned_pages());
    assert(m1.frames_wf());
}

/// Appending a fresh Ready process (enqueued last, its frames charged)
/// preserves the manager's invariant.
proof fn lemma_wf_after_spawn(m0: ProcessManager, m1: ProcessManager, pid: ProcessId)
    requires
        m0.wf(),
        m1.processes@.len() == m0.procs().len() + 1,
        m1.processes@ == m0.procs().push(m1.processes@.last()),
        ({
            let p = m1.processes@.last();
            &&& p.pid == pid
            &&& !has_pid(m0.procs(), pid)
            &&& 1 <= pid.0 < m1.pids.next
            &&& p.inner.status == ProgramStatus::Ready
            &&& p.inner.exit_code is None
            &&& (p.inner.proc_vm matches Some(vm) && vm.wf() && vm.stack.usage >= 1)
            &&& (p.inner.proc_data matches Some(d) && d.wf())
            &&& !(exists|k: int|
                0 <= k < m0.procs().len() && ((#[trigger] m0.procs()[k]).inner.proc_vm
                    matches Some(_)) && crate::stack::window_base(
                    m0.procs()[k].inner.proc_vm->Some_0.stack.bottom,
                ) == crate::stack::window_base(p.inner.proc_vm->Some_0.stack.bottom))
            &&& m1.frames.total == m0.frames.total
            &&& m1.frames.free + p.owned_pages() == m0.frames.free
            &&& 0 <= p.owned_pages()
        }),
        forall|k: int|
            0 <= k < m0.procs().len() ==> (#[trigger] m0.procs()[k]).pid.0 < m1.pids.next,
        m1.ready_queue@ == m0.ready_queue@.push(pid),
        m1.waiters == m0.waiters,
        m1.semaphores == m0.semaphores,
        m1.current == m0.current,
    ensures
        m1.wf(),
        m1.proc_of(pid) == m1.processes@.last(),
        m1.status_of(pid) == ProgramStatus::Ready,
        forall|q: ProcessId|
            q != pid && has_pid(m0.procs(), q) ==> #[trigger] m1.proc_of(q) == m0.proc_of(q),
{
    let p = m1.processes@.last();
    lemma_push_new_pid(m0.procs(), p);
    lemma_total_mapped_push(m0.procs(), p);
    let q0 = m0.ready_queue@;
    let q1 = m1.ready_queue@;
    assert forall|k: int| 0 <= k < m1.procs().len() implies 1 <= (#[trigger] m1.procs()[k]).pid.0
        < m1.pids.next by {
        if k < m0.procs().len() {
            assert(m1.procs()[k] == m0.procs()[k]);
        }
    }
    assert forall|x: int|
        0 <= x < q1.len() implies m1.has_proc(#[trigger] q1[x]) && m1.status_of(q1[x])
        == ProgramStatus::Ready by {
        if x < q0.len() {
            assert(m0.has_proc(q0[x]) && m0.status_of(q0[x]) == ProgramStatus::Ready);
            assert(q1[x] != pid);
            assert(m1.proc_of(q1[x]) == m0.proc_of(q0[x]));
        } else {
            assert(q1[x] == pid);
            assert(m1.proc_of(pid) == p);
        }
    }
    assert forall|a: int, b: int| 0 <= a < b < q1.len() implies (#[trigger] q1[a]) != (
    #[trigger] q1[b]) by {
        if b == q1.len() - 1 {
            assert(q1[a] == q0[a]);
            assert(m0.has_proc(q0[a]));
        }
    }
    assert forall|k: int|
        0 <= k < m1.procs().len() && (#[trigger] m1.procs()[k]).inner.status
            == ProgramStatus::Ready implies q1.contains(m1.procs()[k].pid) by {
        if k < m0.procs().len() {
            assert(m1.procs()[k] == m0.procs()[k]);
            assert(q0.contains(m0.procs()[k].pid));
            let t = choose|t: int| 0 <= t < q0.len() && q0[t] == m0.procs()[k].pid;
            assert(q1[t] == m0.procs()[k].pid);
        } else {
            assert(q1[q1.len() - 1] == pid);
        }
    }
    assert forall|q: ProcessId| #[trigger] m1.in_waiters(q) == m0.in_waiters(q) by {}
    assert forall|q: ProcessId| #[trigger] m1.in_sems(q) == m0.in_sems(q) by {}
    assert forall|x: int|
        0 <= x < m1.waiters@.len() implies m1.has_proc((#[trigger] m1.waiters@[x]).0) && (
        m1.status_of(m1.waiters@[x].0) == ProgramStatus::Blocked || m1.status_of(
            m1.waiters@[x].0,
        ) == ProgramStatus::Dead) by {
        let w = m1.waiters@[x].0;
        assert(m0.has_proc(w));
        assert(w != pid);
        assert(m1.proc_of(w) == m0.proc_of(w));
    }
    assert forall|x: int, a: int|
        0 <= x < m1.semaphores.sems@.len() && 0 <= a < (#[trigger] m1.semaphores.sems@[
            x
        ]).1.waiters@.len() implies m1.has_proc(
        #[trigger] m1.semaphores.sems@[x].1.waiters@[a],
    ) && m1.status_of(m1.semaphores.sems@[x].1.waiters@[a]) == ProgramStatus::Blocked by {
        let w = m1.semaphores.sems@[x].1.waiters@[a];
        assert(m0.has_proc(w) && m0.status_of(w) == ProgramStatus::Blocked);
        assert(w != pid);
        assert(m1.proc_of(w) == m0.proc_of(w));
    }
    assert(m1.has_proc(m1.current));
    assert forall|k: int| 0 <= k < m1.procs().len() implies {
        let pk = #[trigger] m1.procs()[k];
        &&& (pk.inner.status == ProgramStatus::Running ==> pk.pid == m1.current)
        &&& (pk.inner.status == ProgramStatus::Blocked ==> m1.in_waiters(pk.pid) || m1.in_sems(
            pk.pid,
        ))
        &&& (pk.inner.status == ProgramStatus::Ready || pk.inner.status == ProgramStatus::Running
            ==> !m1.in_waiters(pk.pid) && !m1.in_sems(pk.pid))
        &&& (pk.inner.status == ProgramStatus::Dead ==> !m1.in_sems(pk.pid))
    } by {
        if k < m0.procs().len() {
            assert(m1.procs()[k] == m0.procs()[k]);
        } else {
            assert(m1.procs()[k] == p);
            assert(!m1.in_waiters(pid)) by {
                if m1.in_waiters(pid) {
                    let x = choose|x: int|
                        0 <= x < m1.waiters@.len() && (#[trigger] m1.waiters@[x]).0 == pid;
                    assert(m0.has_proc(pid));
                }
            }
            assert(!m1.in_sems(pid)) by {
                if m1.in_sems(pid) {
                    let x = choose|x: int|
                        0 <= x < m1.semaphores.sems@.len() && (#[trigger] m1.semaphores.sems@[
                            x
                        ]).1@.waiters.contains(pid);
                    let a = choose|a: int|
                        0 <= a < m1.semaphores.sems@[x].1@.waiters.len()
                            && m1.semaphores.sems@[x].1@.waiters[a] == pid;
                    assert(m0.semaphores.sems@[x].1.waiters@[a] == pid);
                    assert(m0.has_proc(pid));
                }
            }
        }
    }
    assert forall|k: int| 0 <= k < m1.procs().len() implies {
        let pk = #[trigger] m1.procs()[k];
        &&& (pk.inner.status == ProgramStatus::Dead <==> pk.inner.proc_vm is None)
        &&& (pk.inner.status == ProgramStatus::Dead <==> pk.inner.proc_data is None)
        &&& (pk.inner.status == ProgramStatus::Dead <==> pk.inner.exit_code is Some)
        &&& (pk.inner.proc_vm matches Some(vm) ==> vm.wf() && vm.stack.usage >= 1)
        &&& (pk.inner.proc_data matches Some(d) ==> d.wf())
    } by {
        if k < m0.procs().len() {
            assert(m1.procs()[k] == m0.procs()[k]);
        }
    }
    assert forall|a: int, b: int|
        (0 <= a < m1.procs().len() && 0 <= b < m1.procs().len() && a != b && ((
        #[trigger] m1.procs()[a]).inner.proc_vm matches Some(_)) && ((#[trigger] m1.procs()[
            b
        ]).inner.proc_vm matches Some(_))) implies crate::stack::window_base(
        m1.procs()[a].inner.proc_vm->Some_0.stack.bottom,
    ) != crate::stack::window_base(m1.procs()[b].inner.proc_vm->Some_0.stack.bottom) by {
        if a < m0.procs().len() && b < m0.procs().len() {
            assert(m1.procs()[a] == m0.procs()[a]);
            assert(m1.procs()[b] == m0.procs()[b]);
        } else if a < m0.procs().len() {
            assert(m1.procs()[a] == m0.procs()[a] && m1.procs()[b] == p);
        } else {
            assert(m1.procs()[b] == m0.procs()[b] && m1.procs()[a] == p);
        }
    }
    assert(m1.frames_wf());
}

/// After the Running current process saves its context, turns Blocked, and
/// registers as a waiter for `target`, the manager is parked: well formed
/// with nothing Running.
pub proof fn lemma_parked_after_block(
    m0: ProcessManager,
    m1: ProcessManager,
    saved: ProcessContext,
    target: ProcessId,
)
    requires
        m0.wf(),
        m0.status_of(m0.current) == ProgramStatus::Running,
        ({
            let i = idx_of(m0.procs(), m0.current);
            let p = m0.procs()[i];
            let ticks2: u64 = if p.inner.ticks_passed < u64::MAX {
                (p.inner.ticks_passed + 1) as u64
            } else {
                p.inner.ticks_passed
            };
            &&& m1.processes@ == m0.procs().update(
                i,
                Process {
                    pid: p.pid,
                    inner: ProcessInner {
                        ticks_passed: ticks2,
                        context: saved,
                        status: ProgramStatus::Blocked,
                        ..p.inner
                    },
                },
            )
            &&& m1.waiters@ == m0.waiters@.push((m0.current, target))
            &&& m1.ready_queue == m0.ready_queue
            &&& m1.semaphores == m0.semaphores
            &&& m1.current == m0.current
            &&& m1.pids == m0.pids
            &&& m1.frames == m0.frames
        }),
    ensures
        m1.wf(),
        m1.no_running(),
        m1.status_of(m1.current) == ProgramStatus::Blocked,
        m1.proc_of(m1.current).inner.context == saved,
        forall|q: ProcessId| #[trigger] m1.has_proc(q) == m0.has_proc(q),
        forall|q: ProcessId|
            q != m0.current && m0.has_proc(q) ==> #[trigger] m1.proc_of(q) == m0.proc_of(q),
{
    let cur = m0.current;
    let i = idx_of(m0.procs(), cur);
    assert(0 <= i < m0.procs().len() && m0.procs()[i].pid == cur);
    let p = m0.procs()[i];
    let p2 = m1.processes@[i];
    lemma_update_same_pid(m0.procs(), i, p2);
    lemma_total_mapped_update(m0.procs(), i, p2);
    assert forall|k: int| 0 <= k < m1.procs().len() implies 1 <= (#[trigger] m1.procs()[k]).pid.0
        < m1.pids.next by {
        assert(m1.procs()[k].pid == m0.procs()[k].pid);
    }
    let q0 = m0.ready_queue@;
    assert forall|x: int|
        0 <= x < q0.len() implies m1.has_proc(#[trigger] q0[x]) && m1.status_of(q0[x])
        == ProgramStatus::Ready by {
        assert(m0.status_of(q0[x]) == ProgramStatus::Ready);
        assert(q0[x] != cur);
        assert(m1.proc_of(q0[x]) == m0.proc_of(q0[x]));
    }
    assert forall|k: int|
        0 <= k < m1.procs().len() && (#[trigger] m1.procs()[k]).inner.status
            == ProgramStatus::Ready implies q0.contains(m1.procs()[k].pid) by {
        assert(k != i);
        assert(m1.procs()[k] == m0.procs()[k]);
    }
    let w1 = m1.waiters@;
    let w0 = m0.waiters@;
    assert forall|q: ProcessId| q != cur implies #[trigger] m1.in_waiters(q) == m0.in_waiters(
        q,
    ) by {
        if m1.in_waiters(q) {
            let x = choose|x: int| 0 <= x < w1.len() && (#[trigger] w1[x]).0 == q;
            assert(w1[x] == w0[x]);
        }
        if m0.in_waiters(q) {
            let x = choose|x: int| 0 <= x < w0.len() && (#[trigger] w0[x]).0 == q;
            assert(w1[x] == w0[x]);
        }
    }
    assert forall|q: ProcessId| #[trigger] m1.in_sems(q) == m0.in_sems(q) by {}
    assert(m1.in_waiters(cur)) by {
        assert(w1[w1.len() - 1].0 == cur);
    }
    // waiter entries: distinct, known, Blocked or Dead, not in semaphores
    assert forall|x: int, y: int| 0 <= x < y < w1.len() implies (#[trigger] w1[x]).0 != (
    #[trigger] w1[y]).0 by {
        if y < w0.len() {
            assert(w1[x] == w0[x] && w1[y] == w0[y]);
        } else {
            assert(w1[x] == w0[x]);
            assert(m0.status_of(w0[x].0) == ProgramStatus::Blocked || m0.status_of(w0[x].0)
                == ProgramStatus::Dead);
        }
    }
    assert forall|x: int|
        0 <= x < w1.len() implies m1.has_proc((#[trigger] w1[x]).0) && (m1.status_of(w1[x].0)
        == ProgramStatus::Blocked || m1.status_of(w1[x].0) == ProgramStatus::Dead)
        && !m1.in_sems(w1[x].0) by {
        if x < w0.len() {
            assert(w1[x] == w0[x]);
            assert(m0.has_proc(w0[x].0));
            if w0[x].0 == cur {
                assert(m1.proc_of(cur) == p2);
            } else {
                assert(m1.proc_of(w0[x].0) == m0.proc_of(w0[x].0));
            }
        } else {
            assert(w1[x].0 == cur);
            assert(m1.proc_of(cur) == p2);
            assert(!m0.in_sems(cur));
        }
    }
    assert forall|x: int, a: int|
        0 <= x < m1.semaphores.sems@.len() && 0 <= a < (#[trigger] m1.semaphores.sems@[
            x
        ]).1.waiters@.len() implies m1.has_proc(
        #[trigger] m1.semaphores.sems@[x].1.waiters@[a],
    ) && m1.status_of(m1.semaphores.sems@[x].1.waiters@[a]) == ProgramStatus::Blocked by {
        let w = m1.semaphores.sems@[x].1.waiters@[a];
        assert(m0.has_proc(w) && m0.status_of(w) == ProgramStatus::Blocked);
        assert(w != cur);
        assert(m1.proc_of(w) == m0.proc_of(w));
    }
    assert(m1.has_proc(m1.current));
    assert forall|k: int| 0 <= k < m1.procs().len() implies {
        let pk = #[trigger] m1.procs()[k];
        &&& (pk.inner.status != ProgramStatus::Running)
        &&& (pk.inner.status == ProgramStatus::Blocked ==> m1.in_waiters(pk.pid) || m1.in_sems(
            pk.pid,
        ))
        &&& (pk.inner.status == ProgramStatus::Ready || pk.inner.status == ProgramStatus::Running
            ==> !m1.in_waiters(pk.pid) && !m1.in_sems(pk.pid))
        &&& (pk.inner.status == ProgramStatus::Dead ==> !m1.in_sems(pk.pid))
    } by {
        if k == i {
            assert(m1.procs()[k] == p2);
        } else {
            assert(m1.procs()[k] == m0.procs()[k]);
            assert(m0.procs()[k].pid != cur);
            assert(m0.procs()[k].inner.status != ProgramStatus::Running);
            assert(m1.in_waiters(m0.procs()[k].pid) == m0.in_waiters(m0.procs()[k].pid));
        }
    }
    assert forall|k: int| 0 <= k < m1.procs().len() implies {
        let pk = #[trigger] m1.procs()[k];
        &&& (pk.inner.status == ProgramStatus::Dead <==> pk.inner.proc_vm is None)
        &&& (pk.inner.status == ProgramStatus::Dead <==> pk.inner.proc_data is None)
        &&& (pk.inner.status == ProgramStatus::Dead <==> pk.inner.exit_code is Some)
        &&& (pk.inner.proc_vm matches Some(vm) ==> vm.wf() && vm.stack.usage >= 1)
        &&& (pk.inner.proc_data matches Some(d) ==> d.wf())
    } by {
        if k != i {
            assert(m1.procs()[k] == m0.procs()[k]);
        }
    }
    assert forall|a: int, b: int|
        (0 <= a < m1.procs().len() && 0 <= b < m1.procs().len() && a != b && ((
        #[trigger] m1.procs()[a]).inner.proc_vm matches Some(_)) && ((#[trigger] m1.procs()[
            b
        ]).inner.proc_vm matches Some(_))) implies crate::stack::window_base(
        m1.procs()[a].inner.proc_vm->Some_0.stack.bottom,
    ) != crate::stack::window_base(m1.procs()[b].inner.proc_vm->Some_0.stack.bottom) by {
        assert(m1.procs()[a].inner.proc_vm == m0.procs()[a].inner.proc_vm);
        assert(m1.procs()[b].inner.proc_vm == m0.procs()[b].inner.proc_vm);
    }
    assert(p2.owned_pages() == p.owned_pages());
    assert(m1.frames_wf());
}

/// Changing one live process's address space in place (same stack slot, the
/// page delta settled with the frame allocator) preserves the invariant.
pub proof fn lemma_wf_after_vm_change(m0: ProcessManager, m1: ProcessManager, i: int)
    requires
        m0.wf(),
        0 <= i < m0.procs().len(),
        m1.processes@ == m0.procs().update(i, m1.processes@[i]),
        ({
            let p = m0.procs()[i];
            let p2 = m1.processes@[i];
            &&& p2.pid == p.pid
            &&& p2.inner == (ProcessInner { proc_vm: p2.inner.proc_vm, ..p.inner })
            &&& (p.inner.proc_vm matches Some(_))
            &&& (p2.inner.proc_vm matches Some(_))
            &&& ({
                let vm0 = p.inner.proc_vm->Some_0;
                let vm2 = p2.inner.proc_vm->Some_0;
                &&& vm2.wf()
                &&& vm2.stack.usage >= 1
                &&& crate::stack::window_base(vm2.stack.bottom) == crate::stack::window_base(
                    vm0.stack.bottom,
                )
            })
            &&& m1.frames.free + p2.owned_pages() == m0.frames.free + p.owned_pages()
            &&& m1.frames.total == m0.frames.total
        }),
        m1.ready_queue == m0.ready_queue,
        m1.waiters == m0.waiters,
        m1.semaphores == m0.semaphores,
        m1.current == m0.current,
        m1.pids == m0.pids,
    ensures
        m1.wf(),
        forall|q: ProcessId| #[trigger] m1.has_proc(q) == m0.has_proc(q),
        forall|q: ProcessId|
            q != m0.procs()[i].pid && m0.has_proc(q) ==> #[trigger] m1.proc_of(q) == m0.proc_of(
                q,
            ),
        m1.status_of(m1.current) == m0.status_of(m0.current),
        m1.proc_of(m0.procs()[i].pid) == m1.processes@[i],
{
    let p = m0.procs()[i];
    let p2 = m1.processes@[i];
    lemma_update_same_pid(m0.procs(), i, p2);
    lemma_total_mapped_update(m0.procs(), i, p2);
    assert forall|k: int| 0 <= k < m1.procs().len() implies 1 <= (#[trigger] m1.procs()[k]).pid.0
        < m1.pids.next by {
        assert(m1.procs()[k].pid == m0.procs()[k].pid);
    }
    let q0 = m0.ready_queue@;
    assert forall|x: int|
        0 <= x < q0.len() implies m1.has_proc(#[trigger] q0[x]) && m1.status_of(q0[x])
        == ProgramStatus::Ready by {
        if q0[x] == p.pid {
            assert(m1.proc_of(p.pid) == p2);
        } else {
            assert(m1.proc_of(q0[x]) == m0.proc_of(q0[x]));
        }
    }
    assert forall|k: int|
        0 <= k < m1.procs().len() && (#[trigger] m1.procs()[k]).inner.status
            == ProgramStatus::Ready implies q0.contains(m1.procs()[k].pid) by {
        if k != i {
            assert(m1.procs()[k] == m0.procs()[k]);
        }
    }
    assert forall|q: ProcessId| #[trigger] m1.in_waiters(q) == m0.in_waiters(q) by {}
    assert forall|q: ProcessId| #[trigger] m1.in_sems(q) == m0.in_sems(q) by {}
    assert forall|x: int|
        0 <= x < m1.waiters@.len() implies m1.has_proc((#[trigger] m1.waiters@[x]).0) && (
        m1.status_of(m1.waiters@[x].0) == ProgramStatus::Blocked || m1.status_of(
            m1.waiters@[x].0,
        ) == ProgramStatus::Dead) by {
        let w = m1.waiters@[x].0;
        if w == p.pid {
            assert(m1.proc_of(w) == p2);
        } else {
            assert(m1.proc_of(w) == m0.proc_of(w));
        }
    }
    assert forall|x: int, a: int|
        0 <= x < m1.semaphores.sems@.len() && 0 <= a < (#[trigger] m1.semaphores.sems@[
            x
        ]).1.waiters@.len() implies m1.has_proc(
        #[trigger] m1.semaphores.sems@[x].1.waiters@[a],
    ) && m1.status_of(m1.semaphores.sems@[x].1.waiters@[a]) == ProgramStatus::Blocked by {
        let w = m1.semaphores.sems@[x].1.waiters@[a];
        if w == p.pid {
            assert(m1.proc_of(w) == p2);
        } else {
            assert(m1.proc_of(w) == m0.proc_of(w));
        }
    }
    assert(m1.has_proc(m1.current));
    assert forall|k: int| 0 <= k < m1.procs().len() implies {
        let pk = #[trigger] m1.procs()[k];
        &&& (pk.inner.status == ProgramStatus::Running ==> pk.pid == m1.current)
        &&& (pk.inner.status == ProgramStatus::Blocked ==> m1.in_waiters(pk.pid) || m1.in_sems(
            pk.pid,
        ))
        &&& (pk.inner.status == ProgramStatus::Ready || pk.inner.status == ProgramStatus::Running
            ==> !m1.in_waiters(pk.pid) && !m1.in_sems(pk.pid))
        &&& (pk.inner.status == ProgramStatus::Dead ==> !m1.in_sems(pk.pid))
    } by {
        if k != i {
            assert(m1.procs()[k] == m0.procs()[k]);
        }
    }
    assert forall|k: int| 0 <= k < m1.procs().len() implies {
        let pk = #[trigger] m1.procs()[k];
        &&& (pk.inner.status == ProgramStatus::Dead <==> pk.inner.proc_vm is None)
        &&& (pk.inner.status == ProgramStatus::Dead <==> pk.inner.proc_data is None)
        &&& (pk.inner.status == ProgramStatus::Dead <==> pk.inner.exit_code is Some)
        &&& (pk.inner.proc_vm matches Some(vm) ==> vm.wf() && vm.stack.usage >= 1)
        &&& (pk.inner.proc_data matches Some(d) ==> d.wf())
    } by {
        if k != i {
            assert(m1.procs()[k] == m0.procs()[k]);
        } else {
            assert(p.inner.status != ProgramStatus::Dead);
        }
    }
    assert forall|a: int, b: int|
        (0 <= a < m1.procs().len() && 0 <= b < m1.procs().len() && a != b && ((
        #[trigger] m1.procs()[a]).inner.proc_vm matches Some(_)) && ((#[trigger] m1.procs()[
            b
        ]).inner.proc_vm matches Some(_))) implies crate::stack::window_base(
        m1.procs()[a].inner.proc_vm->Some_0.stack.bottom,
    ) != crate::stack::window_base(m1.procs()[b].inner.proc_vm->Some_0.stack.bottom) by {
        if a != i && b != i {
            assert(m1.procs()[a] == m0.procs()[a]);
            assert(m1.procs()[b] == m0.procs()[b]);
        } else if a == i {
            assert(m1.procs()[b] == m0.procs()[b]);
        } else {
            assert(m1.procs()[a] == m0.procs()[a]);
        }
    }
    assert forall|k: int| 0 <= k < m1.procs().len() implies (#[trigger] m1.procs()[
        k
    ]).owned_pages() >= 0 by {
        lemma_owned_pages_nonneg(m1.procs()[k]);
    }
    lemma_total_mapped_nonneg(m1.procs());
    assert(m1.frames_wf());
}


/// The combined effect of a fork, before the switch: the Running parent is
/// saved (return register = child pid, one more child, Ready), the child
/// record is appended (a copy with return register 0, Ready), and both are
/// enqueued, child first. The manager is then parked.
pub proof fn lemma_wf_after_fork(m0: ProcessManager, m1: ProcessManager, child: ProcessId)
    requires
        m0.wf(),
        m0.status_of(m0.current) == ProgramStatus::Running,
        !has_pid(m0.procs(), child),
        1 <= child.0 < m1.pids.next,
        forall|k: int|
            0 <= k < m0.procs().len() ==> (#[trigger] m0.procs()[k]).pid.0 < m1.pids.next,
        m1.processes@.len() == m0.procs().len() + 1,
        ({
            let i = idx_of(m0.procs(), m0.current);
            let p = m0.procs()[i];
            let p2 = m1.processes@[i];
            let c = m1.processes@.last();
            &&& m1.processes@ == m0.procs().update(i, p2).push(c)
            &&& p2.pid == p.pid
            &&& p2.inner.status == ProgramStatus::Ready
            &&& p2.inner.exit_code == p.inner.exit_code
            &&& p2.inner.proc_vm == p.inner.proc_vm
            &&& p2.inner.proc_data == p.inner.proc_data
            &&& c.pid == child
            &&& c.inner.status == ProgramStatus::Ready
            &&& c.inner.exit_code is None
            &&& (c.inner.proc_vm matches Some(vm) && vm.wf() && vm.stack.usage >= 1)
            &&& (c.inner.proc_data matches Some(d) && d.wf())
            &&& (forall|k: int|
                0 <= k < m0.procs().len() && ((#[trigger] m0.procs()[k]).inner.proc_vm
                    matches Some(_)) ==> crate::stack::window_base(
                    m0.procs()[k].inner.proc_vm->Some_0.stack.bottom,
                ) != crate::stack::window_base(c.inner.proc_vm->Some_0.stack.bottom))
            &&& m1.frames.total == m0.frames.total
            &&& m1.frames.free + c.owned_pages() == m0.frames.free
            &&& 0 <= c.owned_pages()
        }),
        m1.ready_queue@ == m0.ready_queue@.push(child).push(m0.current),
        m1.waiters == m0.waiters,
        m1.semaphores == m0.semaphores,
        m1.current == m0.current,
    ensures
        m1.wf(),
        m1.no_running(),
        m1.proc_of(child) == m1.processes@.last(),
        m1.proc_of(m0.current) == m1.processes@[idx_of(m0.procs(), m0.current)],
{
    let cur = m0.current;
    let i = idx_of(m0.procs(), cur);
    assert(0 <= i < m0.procs().len() && m0.procs()[i].pid == cur);
    let p = m0.procs()[i];
    let p2 = m1.processes@[i];
    let c = m1.processes@.last();
    let mid = m0.procs().update(i, p2);
    lemma_update_same_pid(m0.procs(), i, p2);
    lemma_total_mapped_update(m0.procs(), i, p2);
    assert(!has_pid(mid, child)) by {
        if has_pid(mid, child) {
            let k = choose|k: int| 0 <= k < mid.len() && (#[trigger] mid[k]).pid == child;
            assert(m0.procs()[k].pid == child);
        }
    }
    lemma_push_new_pid(mid, c);
    lemma_total_mapped_push(mid, c);
    assert(p2.owned_pages() == p.owned_pages());
    // record lookups: the parent and the child, and everyone else untouched
    assert(proc_at(m1.processes@, child) == c);
    assert(proc_at(m1.processes@, cur) == p2) by {
        assert(proc_at(mid, cur) == p2);
    }
    assert forall|q: ProcessId|
        q != cur && q != child && has_pid(m0.procs(), q) implies #[trigger] proc_at(
        m1.processes@,
        q,
    ) == proc_at(m0.procs(), q) by {
        assert(proc_at(mid, q) == proc_at(m0.procs(), q));
        assert(proc_at(m1.processes@, q) == proc_at(mid, q));
    }
    assert forall|k: int| 0 <= k < m1.procs().len() implies 1 <= (#[trigger] m1.procs()[k]).pid.0
        < m1.pids.next by {
        if k < m0.procs().len() {
            assert(m1.procs()[k].pid == m0.procs()[k].pid);
        }
    }
    let q0 = m0.ready_queue@;
    let q1 = m1.ready_queue@;
    assert forall|x: int|
        0 <= x < q1.len() implies m1.has_proc(#[trigger] q1[x]) && m1.status_of(q1[x])
        == ProgramStatus::Ready by {
        if x < q0.len() {
            assert(q1[x] == q0[x]);
            assert(m0.has_proc(q0[x]) && m0.status_of(q0[x]) == ProgramStatus::Ready);
            assert(q0[x] != cur && q0[x] != child);
        } else if x == q0.len() {
            assert(q1[x] == child);
        } else {
            assert(q1[x] == cur);
        }
    }
    assert forall|a: int, b: int| 0 <= a < b < q1.len() implies (#[trigger] q1[a]) != (
    #[trigger] q1[b]) by {
        if b == q1.len() - 1 {
            if a < q0.len() {
                assert(q1[a] == q0[a]);
                assert(m0.status_of(q0[a]) == ProgramStatus::Ready);
            } else {
                assert(q1[a] == child);
            }
        } else if b == q0.len() {
            assert(q1[a] == q0[a]);
            assert(m0.has_proc(q0[a]));
        }
    }
    assert forall|k: int|
        0 <= k < m1.procs().len() && (#[trigger] m1.procs()[k]).inner.status
            == ProgramStatus::Ready implies q1.contains(m1.procs()[k].pid) by {
        if k == i {
            assert(q1[q1.len() - 1] == cur);
        } else if k == m1.procs().len() - 1 {
            assert(q1[q0.len() as int] == child);
        } else {
            assert(m1.procs()[k] == m0.procs()[k]);
            assert(q0.contains(m0.procs()[k].pid));
            let t = choose|t: int| 0 <= t < q0.len() && q0[t] == m0.procs()[k].pid;
            assert(q1[t] == m0.procs()[k].pid);
        }
    }
    assert forall|q: ProcessId| #[trigger] m1.in_waiters(q) == m0.in_waiters(q) by {}
    assert forall|q: ProcessId| #[trigger] m1.in_sems(q) == m0.in_sems(q) by {}
    assert forall|x: int|
        0 <= x < m1.waiters@.len() implies m1.has_proc((#[trigger] m1.waiters@[x]).0) && (
        m1.status_of(m1.waiters@[x].0) == ProgramStatus::Blocked || m1.status_of(
            m1.waiters@[x].0,
        ) == ProgramStatus::Dead) by {
        let w = m1.waiters@[x].0;
        assert(m0.has_proc(w));
        assert(w != cur && w != child);
        assert(m1.proc_of(w) == m0.proc_of(w));
    }
    assert forall|x: int, a: int|
        0 <= x < m1.semaphores.sems@.len() && 0 <= a < (#[trigger] m1.semaphores.sems@[
            x
        ]).1.waiters@.len() implies m1.has_proc(
        #[trigger] m1.semaphores.sems@[x].1.waiters@[a],
    ) && m1.status_of(m1.semaphores.sems@[x].1.waiters@[a]) == ProgramStatus::Blocked by {
        let w = m1.semaphores.sems@[x].1.waiters@[a];
        assert(m0.has_proc(w) && m0.status_of(w) == ProgramStatus::Blocked);
        assert(w != cur && w != child);
        assert(m1.proc_of(w) == m0.proc_of(w));
    }
    assert(m1.has_proc(m1.current));
    assert forall|k: int| 0 <= k < m1.procs().len() implies {
        let pk = #[trigger] m1.procs()[k];
        &&& (pk.inner.status != ProgramStatus::Running)
        &&& (pk.inner.status == ProgramStatus::Blocked ==> m1.in_waiters(pk.pid) || m1.in_sems(
            pk.pid,
        ))
        &&& (pk.inner.status == ProgramStatus::Ready || pk.inner.status == ProgramStatus::Running
            ==> !m1.in_waiters(pk.pid) && !m1.in_sems(pk.pid))
        &&& (pk.inner.status == ProgramStatus::Dead ==> !m1.in_sems(pk.pid))
    } by {
        if k == i {
            assert(!m0.in_waiters(cur) && !m0.in_sems(cur));
        } else if k == m1.procs().len() - 1 {
            assert(!m1.in_waiters(child)) by {
                if m1.in_waiters(child) {
                    let x = choose|x: int|
                        0 <= x < m1.waiters@.len() && (#[trigger] m1.waiters@[x]).0 == child;
                    assert(m0.has_proc(child));
                }
            }
            assert(!m1.in_sems(child)) by {
                if m1.in_sems(child) {
                    let x = choose|x: int|
                        0 <= x < m1.semaphores.sems@.len() && (#[trigger] m1.semaphores.sems@[
                            x
                        ]).1@.waiters.contains(child);
                    let a = choose|a: int|
                        0 <= a < m1.semaphores.sems@[x].1@.waiters.len()
                            && m1.semaphores.sems@[x].1@.waiters[a] == child;
                    assert(m0.semaphores.sems@[x].1.waiters@[a] == child);
                    assert(m0.has_proc(child));
                }
            }
        } else {
            assert(m1.procs()[k] == m0.procs()[k]);
            assert(m0.procs()[k].pid != cur);
        }
    }
    assert forall|k: int| 0 <= k < m1.procs().len() implies {
        let pk = #[trigger] m1.procs()[k];
        &&& (pk.inner.status == ProgramStatus::Dead <==> pk.inner.proc_vm is None)
        &&& (pk.inner.status == ProgramStatus::Dead <==> pk.inner.proc_data is None)
        &&& (pk.inner.status == ProgramStatus::Dead <==> pk.inner.exit_code is Some)
        &&& (pk.inner.proc_vm matches Some(vm) ==> vm.wf() && vm.stack.usage >= 1)
        &&& (pk.inner.proc_data matches Some(d) ==> d.wf())
    } by {
        if k == i {
            assert(p.inner.status == ProgramStatus::Running);
        } else if k < m0.procs().len() {
            assert(m1.procs()[k] == m0.procs()[k]);
        }
    }
    assert forall|a: int, b: int|
        (0 <= a < m1.procs().len() && 0 <= b < m1.procs().len() && a != b && ((
        #[trigger] m1.procs()[a]).inner.proc_vm matches Some(_)) && ((#[trigger] m1.procs()[
            b
        ]).inner.proc_vm matches Some(_))) implies crate::stack::window_base(
        m1.procs()[a].inner.proc_vm->Some_0.stack.bottom,
    ) != crate::stack::window_base(m1.procs()[b].inner.proc_vm->Some_0.stack.bottom) by {
        if a < m0.procs().len() && b < m0.procs().len() {
            assert(m1.procs()[a].inner.proc_vm == m0.procs()[a].inner.proc_vm);
            assert(m1.procs()[b].inner.proc_vm == m0.procs()[b].inner.proc_vm);
        } else if a < m0.procs().len() {
            assert(m1.procs()[b] == c);
            assert(m1.procs()[a].inner.proc_vm == m0.procs()[a].inner.proc_vm);
        } else {
            assert(m1.procs()[a] == c);
            assert(m1.procs()[b].inner.proc_vm == m0.procs()[b].inner.proc_vm);
        }
    }
    assert(m1.frames_wf());
}

/// When every record owns a nonnegative page count, each one's share is
/// bounded by the table's total.
pub proof fn lemma_total_mapped_bound(s: Seq<Process>, i: int)
    requires
        0 <= i < s.len(),
        forall|k: int| 0 <= k < s.len() ==> (#[trigger] s[k]).owned_pages() >= 0,
    ensures
        total_mapped(s) >= 0,
        s[i].owned_pages() <= total_mapped(s),
    decreases s.len(),
{
    assert(total_mapped(s) == total_mapped(s.drop_last()) + s.last().owned_pages());
    assert(s.last() == s[s.len() - 1]);
    if s.len() == 1 {
    } else if i == s.len() - 1 {
        lemma_total_mapped_nonneg(s.drop_last());
    } else {
        assert forall|k: int|
            0 <= k < s.drop_last().len() implies (#[trigger] s.drop_last()[k]).owned_pages()
            >= 0 by {
            assert(s.drop_last()[k] == s[k]);
        }
        lemma_total_mapped_bound(s.drop_last(), i);
        assert(s.drop_last()[i] == s[i]);
    }
}

/// A table of nonnegative owners has a nonnegative total.
pub proof fn lemma_total_mapped_nonneg(s: Seq<Process>)
    requires
        forall|k: int| 0 <= k < s.len() ==> (#[trigger] s[k]).owned_pages() >= 0,
    ensures
        total_mapped(s) >= 0,
    decreases s.len(),
{
    if s.len() > 0 {
        assert forall|k: int|
            0 <= k < s.drop_last().len() implies (#[trigger] s.drop_last()[k]).owned_pages()
            >= 0 by {
            assert(s.drop_last()[k] == s[k]);
        }
        lemma_total_mapped_nonneg(s.drop_last());
    }
}

/// Killing the Running current process (record closed, frames reclaimed)
/// preserves the manager's invariant and leaves nothing Running.
proof fn lemma_wf_after_kill_current(m0: ProcessManager, m1: ProcessManager, i: int, ret: isize)
    requires
        m0.wf(),
        m0.status_of(m0.current) == ProgramStatus::Running,
        i == idx_of(m0.procs(), m0.current),
        ({
            let p = m0.procs()[i];
            &&& m1.processes@ == m0.procs().update(
                i,
                Process {
                    pid: p.pid,
                    inner: ProcessInner {
                        status: ProgramStatus::Dead,
                        exit_code: Some(ret),
                        proc_vm: None,
                        proc_data: None,
                        ..p.inner
                    },
                },
            )
            &&& m1.frames.free == m0.frames.free + p.owned_pages()
            &&& m1.frames.total == m0.frames.total
        }),
        m1.ready_queue == m0.ready_queue,
        m1.waiters == m0.waiters,
        m1.semaphores == m0.semaphores,
        m1.pids == m0.pids,
        m1.current == m0.current,
    ensures
        m1.wf(),
        m1.no_running(),
        m1.status_of(m1.current) == ProgramStatus::Dead,
        forall|q: ProcessId| #[trigger] m1.has_proc(q) == m0.has_proc(q),
        forall|q: ProcessId|
            q != m0.current && m0.has_proc(q) ==> #[trigger] m1.proc_of(q) == m0.proc_of(q),
{
    let cur = m0.current;
    assert(0 <= i < m0.procs().len() && m0.procs()[i].pid == cur);
    let p = m0.procs()[i];
    let p2 = m1.processes@[i];
    lemma_update_same_pid(m0.procs(), i, p2);
    lemma_total_mapped_update(m0.procs(), i, p2);
    assert forall|k: int| 0 <= k < m1.procs().len() implies 1 <= (#[trigger] m1.procs()[k]).pid.0
        < m1.pids.next by {
        assert(m1.procs()[k].pid == m0.procs()[k].pid);
    }
    let q0 = m0.ready_queue@;
    assert forall|x: int|
        0 <= x < q0.len() implies m1.has_proc(#[trigger] q0[x]) && m1.status_of(q0[x])
        == ProgramStatus::Ready by {
        assert(m0.status_of(q0[x]) == ProgramStatus::Ready);
        assert(q0[x] != cur);
        assert(m1.proc_of(q0[x]) == m0.proc_of(q0[x]));
    }
    assert forall|k: int|
        0 <= k < m1.procs().len() && (#[trigger] m1.procs()[k]).inner.status
            == ProgramStatus::Ready implies q0.contains(m1.procs()[k].pid) by {
        assert(k != i);
        assert(m1.procs()[k] == m0.procs()[k]);
    }
    assert forall|q: ProcessId| #[trigger] m1.in_waiters(q) == m0.in_waiters(q) by {}
    assert forall|q: ProcessId| #[trigger] m1.in_sems(q) == m0.in_sems(q) by {}
    assert forall|x: int|
        0 <= x < m1.waiters@.len() implies m1.has_proc((#[trigger] m1.waiters@[x]).0) && (
        m1.status_of(m1.waiters@[x].0) == ProgramStatus::Blocked || m1.status_of(
            m1.waiters@[x].0,
        ) == ProgramStatus::Dead) by {
        let w = m1.waiters@[x].0;
        assert(m0.has_proc(w));
        assert(w != cur);
        assert(m1.proc_of(w) == m0.proc_of(w));
    }
    assert forall|x: int, a: int|
        0 <= x < m1.semaphores.sems@.len() && 0 <= a < (#[trigger] m1.semaphores.sems@[
            x
        ]).1.waiters@.len() implies m1.has_proc(
        #[trigger] m1.semaphores.sems@[x].1.waiters@[a],
    ) && m1.status_of(m1.semaphores.sems@[x].1.waiters@[a]) == ProgramStatus::Blocked by {
        let w = m1.semaphores.sems@[x].1.waiters@[a];
        assert(m0.has_proc(w) && m0.status_of(w) == ProgramStatus::Blocked);
        assert(w != cur);
        assert(m1.proc_of(w) == m0.proc_of(w));
    }
    assert(m1.has_proc(m1.current));
    assert forall|k: int| 0 <= k < m1.procs().len() implies {
        let pk = #[trigger] m1.procs()[k];
        &&& (pk.inner.status != ProgramStatus::Running)
        &&& (pk.inner.status == ProgramStatus::Blocked ==> m1.in_waiters(pk.pid) || m1.in_sems(
            pk.pid,
        ))
        &&& (pk.inner.status == ProgramStatus::Ready ==> !m1.in_waiters(pk.pid) && !m1.in_sems(
            pk.pid,
        ))
        &&& (pk.inner.status == ProgramStatus::Dead ==> !m1.in_sems(pk.pid))
    } by {
        if k == i {
            assert(!m0.in_sems(cur));
        } else {
            assert(m1.procs()[k] == m0.procs()[k]);
            assert(m0.procs()[k].pid != cur);
        }
    }
    assert forall|k: int| 0 <= k < m1.procs().len() implies {
        let pk = #[trigger] m1.procs()[k];
        &&& (pk.inner.status == ProgramStatus::Dead <==> pk.inner.proc_vm is None)
        &&& (pk.inner.status == ProgramStatus::Dead <==> pk.inner.proc_data is None)
        &&& (pk.inner.status == ProgramStatus::Dead <==> pk.inner.exit_code is Some)
        &&& (pk.inner.proc_vm matches Some(vm) ==> vm.wf() && vm.stack.usage >= 1)
        &&& (pk.inner.proc_data matches Some(d) ==> d.wf())
    } by {
        if k != i {
            assert(m1.procs()[k] == m0.procs()[k]);
        }
    }
    assert forall|a: int, b: int|
        (0 <= a < m1.procs().len() && 0 <= b < m1.procs().len() && a != b && ((
        #[trigger] m1.procs()[a]).inner.proc_vm matches Some(_)) && ((#[trigger] m1.procs()[
            b
        ]).inner.proc_vm matches Some(_))) implies crate::stack::window_base(
        m1.procs()[a].inner.proc_vm->Some_0.stack.bottom,
    ) != crate::stack::window_base(m1.procs()[b].inner.proc_vm->Some_0.stack.bottom) by {
        assert(a != i && b != i);
        assert(m1.procs()[a] == m0.procs()[a]);
        assert(m1.procs()[b] == m0.procs()[b]);
    }
    assert forall|k: int| 0 <= k < m0.procs().len() implies (#[trigger] m0.procs()[
        k
    ]).owned_pages() >= 0 by {
        lemma_owned_pages_nonneg(m0.procs()[k]);
    }
    lemma_total_mapped_bound(m0.procs(), i);
    assert(p2.owned_pages() == 0);
    assert(m1.frames_wf());
}

/// Turning the Ready or Blocked record at `i` Dead — with the pid gone from
/// the ready queue and from any semaphore queue, and its pages back in the
/// allocator — preserves the manager's invariant.
#[verifier::spinoff_prover]
#[verifier::rlimit(100)]
proof fn lemma_wf_after_kill_parked(
    m0: ProcessManager,
    m1: ProcessManager,
    i: int,
    ret: isize,
    qfound: bool,
    qidx: int,
)
    requires
        m0.wf(),
        0 <= i < m0.procs().len(),
        ({
            let p = m0.procs()[i];
            &&& (p.inner.status == ProgramStatus::Ready || p.inner.status
                == ProgramStatus::Blocked)
            &&& m1.processes@ == m0.procs().update(
                i,
                Process {
                    pid: p.pid,
                    inner: ProcessInner {
                        status: ProgramStatus::Dead,
                        exit_code: Some(ret),
                        proc_vm: None,
                        proc_data: None,
                        ..p.inner
                    },
                },
            )
            &&& m1.frames.free == m0.frames.free + p.owned_pages()
            &&& m1.frames.total == m0.frames.total
            &&& m1.frames.wf()
            &&& (qfound ==> 0 <= qidx < m0.ready_queue@.len() && m0.ready_queue@[qidx] == p.pid
                && m1.ready_queue@ == m0.ready_queue@.remove(qidx))
            &&& (!qfound ==> m1.ready_queue == m0.ready_queue && !m0.ready_queue@.contains(
                p.pid,
            ))
            &&& ((exists|x: int, a: int|
                #[trigger] waiter_removed_at(
                    m0.semaphores.sems@,
                    m1.semaphores.sems@,
                    p.pid,
                    x,
                    a,
                )) || (m1.semaphores == m0.semaphores && !sem_blocked(
                m0.semaphores.sems@,
                p.pid,
            )))
            &&& m1.semaphores.wf()
        }),
        m1.waiters == m0.waiters,
        m1.pids == m0.pids,
        m1.current == m0.current,
    ensures
        m1.wf(),
        forall|q: ProcessId| #[trigger] m1.has_proc(q) == m0.has_proc(q),
        forall|q: ProcessId|
            q != m0.procs()[i].pid && m0.has_proc(q) ==> #[trigger] m1.proc_of(q) == m0.proc_of(
                q,
            ),
{
    let pid = m0.procs()[i].pid;
    let p = m0.procs()[i];
    let p2 = m1.processes@[i];
    lemma_update_same_pid(m0.procs(), i, p2);
    lemma_total_mapped_update(m0.procs(), i, p2);
    assert forall|k: int| 0 <= k < m1.procs().len() implies 1 <= (#[trigger] m1.procs()[k]).pid.0
        < m1.pids.next by {
        assert(m1.procs()[k].pid == m0.procs()[k].pid);
    }
    let s0 = m0.semaphores.sems@;
    let s1 = m1.semaphores.sems@;
    // semaphore membership: the pid is gone; everyone else is as before
    assert(!m1.in_sems(pid) && (forall|q: ProcessId|
        q != pid ==> #[trigger] m1.in_sems(q) == m0.in_sems(q))) by {
        if m1.semaphores == m0.semaphores {
            assert(!sem_blocked(s0, pid));
        } else {
            let (x0, a0) = choose|x0: int, a0: int|
                #[trigger] waiter_removed_at(s0, s1, pid, x0, a0);
            assert(s1[x0].1@.waiters == s0[x0].1@.waiters.remove(a0));
            assert(!m1.in_sems(pid)) by {
                if m1.in_sems(pid) {
                    let x = choose|x: int|
                        0 <= x < s1.len() && #[trigger] s1[x].1@.waiters.contains(pid);
                    let a = choose|a: int|
                        0 <= a < s1[x].1@.waiters.len() && s1[x].1@.waiters[a] == pid;
                    if x == x0 {
                        let a1: int = if a < a0 {
                            a
                        } else {
                            a + 1
                        };
                        assert(s1[x0].1@.waiters[a] == s0[x0].1@.waiters[a1]);
                        assert(a1 != a0);
                        assert(s0[x0].1@.waiters[a1] != s0[x0].1@.waiters[a0]);
                    } else {
                        assert(s1[x] == s0[x]);
                        assert(s0[x].1@.waiters[a] != s0[x0].1@.waiters[a0]);
                    }
                }
            }
            assert forall|q: ProcessId| q != pid implies #[trigger] m1.in_sems(q) == m0.in_sems(
                q,
            ) by {
                if m1.in_sems(q) {
                    let x = choose|x: int|
                        0 <= x < s1.len() && #[trigger] s1[x].1@.waiters.contains(q);
                    let a = choose|a: int|
                        0 <= a < s1[x].1@.waiters.len() && s1[x].1@.waiters[a] == q;
                    if x == x0 {
                        let a1: int = if a < a0 {
                            a
                        } else {
                            a + 1
                        };
                        assert(s0[x0].1@.waiters[a1] == q);
                        assert(s0[x0].1@.waiters.contains(q));
                    } else {
                        assert(s1[x] == s0[x]);
                    }
                    assert(m0.in_sems(q));
                }
                if m0.in_sems(q) {
                    let x = choose|x: int|
                        0 <= x < s0.len() && #[trigger] s0[x].1@.waiters.contains(q);
                    let a = choose|a: int|
                        0 <= a < s0[x].1@.waiters.len() && s0[x].1@.waiters[a] == q;
                    if x == x0 {
                        assert(a != a0);
                        let a1: int = if a < a0 {
                            a
                        } else {
                            a - 1
                        };
                        assert(s1[x0].1@.waiters[a1] == q);
                        assert(s1[x0].1@.waiters.contains(q));
                    } else {
                        assert(s1[x] == s0[x]);
                        assert(s1[x].1@.waiters.contains(q));
                    }
                    assert(m1.in_sems(q));
                }
            }
        }
    }
    // semaphore queues hold known, Blocked, once-only pids
    assert forall|x: int, a: int|
        0 <= x < s1.len() && 0 <= a < (#[trigger] s1[x]).1.waiters@.len() implies m1.has_proc(
        #[trigger] s1[x].1.waiters@[a],
    ) && m1.status_of(s1[x].1.waiters@[a]) == ProgramStatus::Blocked by {
        let w = s1[x].1.waiters@[a];
        assert(s1[x].1@.waiters.contains(w));
        assert(m1.in_sems(w));
        assert(w != pid);
        assert(m0.in_sems(w));
        let y = choose|y: int| 0 <= y < s0.len() && #[trigger] s0[y].1@.waiters.contains(w);
        let b = choose|b: int| 0 <= b < s0[y].1@.waiters.len() && s0[y].1@.waiters[b] == w;
        assert(m0.has_proc(w) && m0.status_of(w) == ProgramStatus::Blocked);
        assert(m1.proc_of(w) == m0.proc_of(w));
    }
    assert forall|x: int, a: int, y: int, b: int|
        0 <= x < s1.len() && 0 <= a < s1[x].1.waiters@.len() && 0 <= y < s1.len() && 0 <= b
            < s1[y].1.waiters@.len() && (x != y || a != b) implies (
    #[trigger] s1[x].1.waiters@[a]) != (#[trigger] s1[y].1.waiters@[b]) by {
        if m1.semaphores == m0.semaphores {
        } else {
            let (x0, a0) = choose|x0: int, a0: int|
                #[trigger] waiter_removed_at(s0, s1, pid, x0, a0);
            let a1: int = if x == x0 && a >= a0 {
                a + 1
            } else {
                a
            };
            let b1: int = if y == x0 && b >= a0 {
                b + 1
            } else {
                b
            };
            assert(s1[x].1.waiters@[a] == s0[x].1.waiters@[a1]);
            assert(s1[y].1.waiters@[b] == s0[y].1.waiters@[b1]);
        }
    }
    // ready queue
    let q0 = m0.ready_queue@;
    let q1 = m1.ready_queue@;
    assert forall|t: int|
        0 <= t < q1.len() implies m1.has_proc(#[trigger] q1[t]) && m1.status_of(q1[t])
        == ProgramStatus::Ready by {
        let t1: int = if qfound && t >= qidx {
            t + 1
        } else {
            t
        };
        assert(q1[t] == q0[t1]);
        assert(m0.status_of(q0[t1]) == ProgramStatus::Ready);
        assert(q1[t] != pid);
        assert(m1.proc_of(q1[t]) == m0.proc_of(q1[t]));
    }
    assert forall|t: int, u: int| 0 <= t < u < q1.len() implies (#[trigger] q1[t]) != (
    #[trigger] q1[u]) by {
        let t1: int = if qfound && t >= qidx {
            t + 1
        } else {
            t
        };
        let u1: int = if qfound && u >= qidx {
            u + 1
        } else {
            u
        };
        assert(q1[t] == q0[t1] && q1[u] == q0[u1]);
    }
    assert forall|k: int|
        0 <= k < m1.procs().len() && (#[trigger] m1.procs()[k]).inner.status
            == ProgramStatus::Ready implies q1.contains(m1.procs()[k].pid) by {
        assert(k != i);
        assert(m1.procs()[k] == m0.procs()[k]);
        assert(q0.contains(m0.procs()[k].pid));
        let y = choose|y: int| 0 <= y < q0.len() && q0[y] == m0.procs()[k].pid;
        if qfound {
            assert(y != qidx);
            let y1: int = if y < qidx {
                y
            } else {
                y - 1
            };
            assert(q1[y1] == q0[y]);
        } else {
            assert(q1[y] == q0[y]);
        }
    }
    // waiters map
    assert forall|q: ProcessId| #[trigger] m1.in_waiters(q) == m0.in_waiters(q) by {}
    assert forall|x: int|
        0 <= x < m1.waiters@.len() implies m1.has_proc((#[trigger] m1.waiters@[x]).0) && (
        m1.status_of(m1.waiters@[x].0) == ProgramStatus::Blocked || m1.status_of(
            m1.waiters@[x].0,
        ) == ProgramStatus::Dead) && !m1.in_sems(m1.waiters@[x].0) by {
        let w = m1.waiters@[x].0;
        assert(m0.has_proc(w));
        if w == pid {
            assert(m1.proc_of(pid) == p2);
        } else {
            assert(m1.proc_of(w) == m0.proc_of(w));
            assert(m1.in_sems(w) == m0.in_sems(w));
        }
    }
    // statuses
    assert(m1.has_proc(m1.current));
    assert forall|k: int| 0 <= k < m1.procs().len() implies {
        let pk = #[trigger] m1.procs()[k];
        &&& (pk.inner.status == ProgramStatus::Running ==> pk.pid == m1.current)
        &&& (pk.inner.status == ProgramStatus::Blocked ==> m1.in_waiters(pk.pid) || m1.in_sems(
            pk.pid,
        ))
        &&& (pk.inner.status == ProgramStatus::Ready || pk.inner.status == ProgramStatus::Running
            ==> !m1.in_waiters(pk.pid) && !m1.in_sems(pk.pid))
        &&& (pk.inner.status == ProgramStatus::Dead ==> !m1.in_sems(pk.pid))
    } by {
        if k == i {
            assert(!m1.in_sems(pid));
        } else {
            assert(m1.procs()[k] == m0.procs()[k]);
            assert(m0.procs()[k].pid != pid);
            assert(m1.in_sems(m0.procs()[k].pid) == m0.in_sems(m0.procs()[k].pid));
        }
    }
    // per-record sanity and slots
    assert forall|k: int| 0 <= k < m1.procs().len() implies {
        let pk = #[trigger] m1.procs()[k];
        &&& (pk.inner.status == ProgramStatus::Dead <==> pk.inner.proc_vm is None)
        &&& (pk.inner.status == ProgramStatus::Dead <==> pk.inner.proc_data is None)
        &&& (pk.inner.status == ProgramStatus::Dead <==> pk.inner.exit_code is Some)
        &&& (pk.inner.proc_vm matches Some(vm) ==> vm.wf() && vm.stack.usage >= 1)
        &&& (pk.inner.proc_data matches Some(d) ==> d.wf())
    } by {
        if k != i {
            assert(m1.procs()[k] == m0.procs()[k]);
        }
    }
    assert forall|a: int, b: int|
        (0 <= a < m1.procs().len() && 0 <= b < m1.procs().len() && a != b && ((
        #[trigger] m1.procs()[a]).inner.proc_vm matches Some(_)) && ((#[trigger] m1.procs()[
            b
        ]).inner.proc_vm matches Some(_))) implies crate::stack::window_base(
        m1.procs()[a].inner.proc_vm->Some_0.stack.bottom,
    ) != crate::stack::window_base(m1.procs()[b].inner.proc_vm->Some_0.stack.bottom) by {
        assert(a != i && b != i);
        assert(m1.procs()[a] == m0.procs()[a]);
        assert(m1.procs()[b] == m0.procs()[b]);
    }
    assert(p2.owned_pages() == 0);
    assert(m1.frames_wf());
}

/// Law: at most one process is Running, and its pid is the current one.
pub proof fn lemma_one_running(m: ProcessManager)
    requires
        m.wf(),
    ensures
        forall|i: int, j: int|
            0 <= i < m.procs().len() && 0 <= j < m.procs().len() && (#[trigger] m.procs()[
                i
            ]).inner.status == ProgramStatus::Running && (#[trigger] m.procs()[j]).inner.status
                == ProgramStatus::Running ==> i == j,
        forall|i: int|
            0 <= i < m.procs().len() && (#[trigger] m.procs()[i]).inner.status
                == ProgramStatus::Running ==> m.procs()[i].pid == m.current,
{
}

/// Law: a Ready process sits in the ready queue at exactly one position; a
/// Dead process sits nowhere in it.
pub proof fn lemma_ready_queue_exact(m: ProcessManager, pid: ProcessId)
    requires
        m.wf(),
        m.has_proc(pid),
    ensures
        m.status_of(pid) == ProgramStatus::Ready ==> m.ready_queue@.contains(pid) && (forall|
            x: int,
            y: int,
        |
            0 <= x < m.ready_queue@.len() && 0 <= y < m.ready_queue@.len() && (
            #[trigger] m.ready_queue@[x]) == pid && (#[trigger] m.ready_queue@[y]) == pid ==> x
                == y),
        m.status_of(pid) != ProgramStatus::Ready ==> !m.ready_queue@.contains(pid),
{
    let i = idx_of(m.procs(), pid);
    assert(m.procs()[i].pid == pid);
    if m.status_of(pid) != ProgramStatus::Ready {
        if m.ready_queue@.contains(pid) {
            let x = choose|x: int|
                0 <= x < m.ready_queue@.len() && m.ready_queue@[x] == pid;
            assert(m.status_of(m.ready_queue@[x]) == ProgramStatus::Ready);
        }
    }
}

/// Law: a Blocked process is referenced exactly once — by one waiter-map
/// entry or by one position of one semaphore queue, never both.
pub proof fn lemma_blocked_referenced_once(m: ProcessManager, pid: ProcessId)
    requires
        m.wf(),
        m.has_proc(pid),
        m.status_of(pid) == ProgramStatus::Blocked,
    ensures
        m.in_waiters(pid) || m.in_sems(pid),
        !(m.in_waiters(pid) && m.in_sems(pid)),
        forall|x: int, y: int|
            0 <= x < m.waiters@.len() && 0 <= y < m.waiters@.len() && (#[trigger] m.waiters@[
                x
            ]).0 == pid && (#[trigger] m.waiters@[y]).0 == pid ==> x == y,
        forall|x: int, a: int, y: int, b: int|
            0 <= x < m.semaphores.sems@.len() && 0 <= a < m.semaphores.sems@[
                x
            ].1.waiters@.len() && 0 <= y < m.semaphores.sems@.len() && 0 <= b
                < m.semaphores.sems@[y].1.waiters@.len() && (#[trigger] m.semaphores.sems@[
                x
            ].1.waiters@[a]) == pid && (#[trigger] m.semaphores.sems@[y].1.waiters@[b]) == pid
                ==> x == y && a == b,
{
    let i = idx_of(m.procs(), pid);
    assert(m.procs()[i].pid == pid && m.procs()[i].inner.status == ProgramStatus::Blocked);
    if m.in_waiters(pid) {
        let x = choose|x: int| 0 <= x < m.waiters@.len() && (#[trigger] m.waiters@[x]).0 == pid;
        assert(!m.in_sems(m.waiters@[x].0));
    }
}

/// A record with a well-formed (or no) address space owns a nonnegative
/// number of pages.
pub proof fn lemma_owned_pages_nonneg(p: Process)
    requires
        p.inner.proc_vm matches Some(vm) ==> vm.wf(),
    ensures
        p.owned_pages() >= 0,
{
}

/// Updating one record changes the mapped-page total by that record's delta.
pub proof fn lemma_total_mapped_update(s: Seq<Process>, i: int, p: Process)
    requires
        0 <= i < s.len(),
    ensures
        total_mapped(s.update(i, p)) == total_mapped(s) - s[i].owned_pages() + p.owned_pages(),
    decreases s.len(),
{
    let s2 = s.update(i, p);
    if i == s.len() - 1 {
        assert(s2.drop_last() =~= s.drop_last());
        assert(s2.last() == p);
    } else {
        assert(s2.drop_last() =~= s.drop_last().update(i, p));
        assert(s2.last() == s.last());
        lemma_total_mapped_update(s.drop_last(), i, p);
    }
}

/// Appending a record adds its pages to the total.
pub proof fn lemma_total_mapped_push(s: Seq<Process>, p: Process)
    ensures
        total_mapped(s.push(p)) == total_mapped(s) + p.owned_pages(),
{
    assert(s.push(p).drop_last() =~= s);
    assert(s.push(p).last() == p);
}

} // verus!
