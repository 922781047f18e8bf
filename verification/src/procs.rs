//! The scheduler-level operations: what the timer tick and each syscall do to
//! the process manager.
//!
//! Each operation here takes the manager from one well-formed state to
//! another; the manager's invariant (one Running process, an exact ready
//! queue, blocked processes referenced exactly once, frame conservation) is
//! both required and ensured. The caller owns the manager and passes it in
//! (on hardware it lives behind a boot-time global).

use vstd::prelude::*;

use crate::context::ProcessContext;
use crate::data::ProcessData;
use crate::frames::FrameAllocator;
use crate::input::InputBuffer;
use crate::manager::BootInfo;
use crate::manager::ProcessManager;
use crate::manager::has_pid;
use crate::manager::idx_of;
use crate::manager::lemma_idx_of_unique;
use crate::manager::lemma_total_mapped_update;
use crate::manager::lemma_update_same_pid;
use crate::manager::lemma_parked_after_block;
use crate::manager::lemma_wf_after_pop;
use crate::manager::lemma_wf_after_vm_change;
use crate::pid::ProcessId;
use crate::process::Process;
use crate::process::ProcessInner;
use crate::process::ProgramStatus;
use crate::semaphore::SemModel;
use crate::semaphore::SemaphoreResult;
use crate::semaphore::sem_signal_spec;
use crate::semaphore::sem_updated_at;
use crate::semaphore::sem_wait_spec;
use crate::semaphore::spec_get;
use crate::vm::PageTableContext;
use crate::vm::ProcessVm;

verus! {

/// Build the manager at boot: the kernel itself becomes process 1, Running,
/// owning the boot page set and the kernel stack.
pub fn init(boot: BootInfo, input: InputBuffer) -> (m: ProcessManager)
    requires
        boot.free_frames >= boot.kernel_pages + crate::stack::KSTACK_DEF_PAGE,
    ensures
        m.wf(),
        m.current.0 == crate::KERNEL_PID,
        m.procs().len() == 1,
        m.status_of(m.current) == ProgramStatus::Running,
        m.frames.total == boot.free_frames,
        m.app_list == boot.app_list,
        m.proc_of(m.current).inner.proc_vm->Some_0.code_pages == boot.kernel_pages,
        m.proc_of(m.current).inner.proc_vm->Some_0.stack.usage == crate::stack::KSTACK_DEF_PAGE,
        m.frames.free == boot.free_frames - boot.kernel_pages - crate::stack::KSTACK_DEF_PAGE,
        m.ready_queue@.len() == 0,
{
    let mut frames = FrameAllocator::new(boot.free_frames);
    let kernel_mapped = boot.kernel_pages + crate::stack::KSTACK_DEF_PAGE;
    let _taken = frames.allocate(kernel_mapped);
    let vm = ProcessVm::new(PageTableContext::new(1)).init_kernel_vm(boot.kernel_pages);
    let data = ProcessData::new();
    let name: String = String::new();
    let mut kproc = Process::new(name, None, vm, data, ProcessId(crate::KERNEL_PID));
    kproc.write().resume();
    ProcessManager::new(kproc, boot.app_list, frames, input)
}

/// The manager parked after saving the current process, with `pid` = the
/// saved current: well formed (but nothing Running) and the queue covering
/// every Ready process.
pub open spec fn parked(m: ProcessManager) -> bool {
    &&& m.wf()
    &&& m.no_running()
}

/// Timer tick: save the current process's context, re-enqueue it, and hand
/// the CPU to the head of the ready queue (possibly itself). A Dead current
/// process is not re-enqueued; with an empty queue nothing switches.
pub fn switch(m: &mut ProcessManager, context: &mut ProcessContext)
    requires
        old(m).wf(),
        old(m).status_of(old(m).current) == ProgramStatus::Running || old(m).status_of(
            old(m).current,
        ) == ProgramStatus::Dead,
    ensures
        final(m).wf(),
        old(m).status_of(old(m).current) == ProgramStatus::Running ==> ({
            let q = old(m).ready_queue@.push(old(m).current);
            &&& final(m).current == q[0]
            &&& final(m).ready_queue@ == q.drop_first()
            &&& final(m).status_of(final(m).current) == ProgramStatus::Running
            &&& (final(m).current != old(m).current ==> final(m).proc_of(
                old(m).current,
            ).inner.context == *old(context))
            &&& *final(context) == final(m).proc_of(final(m).current).inner.context
        }),
        old(m).status_of(old(m).current) == ProgramStatus::Dead ==> ({
            let q = old(m).ready_queue@;
            &&& (q.len() > 0 ==> ({
                &&& final(m).current == q[0]
                &&& final(m).ready_queue@ == q.drop_first()
                &&& final(m).status_of(final(m).current) == ProgramStatus::Running
                &&& *final(context) == final(m).proc_of(final(m).current).inner.context
            }))
            &&& (q.len() == 0 ==> final(m).current == old(m).current && *final(context) == *old(
                context,
            ))
        }),
{
    let ghost m0 = *m;
    let pid = m.save_current(context);
    let ghost i = idx_of(m0.procs(), m0.current);
    let ghost p1 = m.procs()[i];
    proof {
        lemma_update_same_pid(m0.procs(), i, p1);
        lemma_total_mapped_update(m0.procs(), i, p1);
        assert(m.pids_wf()) by {
            assert forall|k: int| 0 <= k < m.procs().len() implies 1 <= (
            #[trigger] m.procs()[k]).pid.0 < m.pids.next by {
                assert(m.procs()[k].pid == m0.procs()[k].pid);
            }
        }
    }
    let alive = m.is_proc_alive(&pid);
    if alive {
        m.push_ready(pid);
    }
    let ghost m1 = *m;
    proof {
        lemma_parked_after_save(m0, m1, *old(context), alive);
    }
    let _next = m.switch_next(context);
    proof {
        let m2 = *m;
        if m1.ready_queue@.len() > 0 {
            lemma_wf_after_pop(m1, m2);
        }
        if m0.status_of(m0.current) == ProgramStatus::Running {
            assert(m1.ready_queue@ == m0.ready_queue@.push(m0.current));
            assert(m1.ready_queue@.len() > 0);
        } else {
            assert(m1.ready_queue@ == m0.ready_queue@);
            assert(m1.current == m0.current);
        }
    }
}

/// Every process that was blocked in `WaitPid` on `target` has been woken
/// with `ret`: its saved return register holds `ret` and it is runnable
/// again.
pub open spec fn waiters_woken(
    m0: ProcessManager,
    m1: ProcessManager,
    target: ProcessId,
    ret: isize,
) -> bool {
    forall|x: int|
        0 <= x < m0.waiters@.len() && (#[trigger] m0.waiters@[x]).1 == target && m0.status_of(
            m0.waiters@[x].0,
        ) == ProgramStatus::Blocked ==> ({
            let w = m0.waiters@[x].0;
            &&& m1.proc_of(w).inner.context.rax == ret as u64
            &&& (m1.status_of(w) == ProgramStatus::Ready || m1.status_of(w)
                == ProgramStatus::Running)
        })
}

/// Exit the current process with code `ret`: every process blocked in
/// `WaitPid` on it is woken with `ret` as return value, the process turns
/// Dead and its frames are reclaimed, and the CPU switches to the head of
/// the ready queue.
pub fn exit(m: &mut ProcessManager, ret: isize, context: &mut ProcessContext)
    requires
        old(m).wf(),
        old(m).status_of(old(m).current) == ProgramStatus::Running,
    ensures
        final(m).wf(),
        final(m).status_of(old(m).current) == ProgramStatus::Dead,
        final(m).proc_of(old(m).current).inner.exit_code == Some(ret),
        waiters_woken(*old(m), *final(m), old(m).current, ret),
        old(m).ready_queue@.len() > 0 ==> ({
            &&& final(m).current == old(m).ready_queue@[0]
            &&& final(m).status_of(final(m).current) == ProgramStatus::Running
            &&& *final(context) == final(m).proc_of(final(m).current).inner.context
        }),
{
    let ghost m0 = *m;
    m.wake_waiting(ret);
    let ghost m1 = *m;
    proof {
        assert(m1.proc_of(m0.current) == m0.proc_of(m0.current));
        assert(m1.status_of(m1.current) == ProgramStatus::Running);
    }
    m.kill_current(ret);
    let ghost m2 = *m;
    let _next = m.switch_next(context);
    proof {
        let m3 = *m;
        if m2.ready_queue@.len() > 0 {
            lemma_wf_after_pop(m2, m3);
        }
        let cur = m0.current;
        assert(m2.proc_of(cur).inner.status == ProgramStatus::Dead);
        assert(m3.proc_of(cur).inner.status == ProgramStatus::Dead) by {
            if m2.ready_queue@.len() > 0 && m2.ready_queue@[0] == cur {
                assert(m2.status_of(m2.ready_queue@[0]) == ProgramStatus::Ready);
            }
        }
        assert forall|x: int|
            0 <= x < m0.waiters@.len() && (#[trigger] m0.waiters@[x]).1 == cur && m0.status_of(
                m0.waiters@[x].0,
            ) == ProgramStatus::Blocked implies ({
            let w = m0.waiters@[x].0;
            &&& m3.proc_of(w).inner.context.rax == ret as u64
            &&& (m3.status_of(w) == ProgramStatus::Ready || m3.status_of(w)
                == ProgramStatus::Running)
        }) by {
            let w = m0.waiters@[x].0;
            assert(ProcessManager::woke_waiter(m0, m1, w, ret));
            assert(m1.proc_of(w).inner.status == ProgramStatus::Ready);
            assert(w != cur);
            assert(m0.has_proc(w));
            assert(m2.proc_of(w) == m1.proc_of(w));
            if m2.ready_queue@.len() > 0 && m2.ready_queue@[0] == w {
                assert(m3.proc_of(w).inner == (ProcessInner {
                    status: ProgramStatus::Running,
                    ..m2.proc_of(w).inner
                }));
            } else {
                assert(m2.has_proc(w));
                if m2.ready_queue@.len() > 0 {
                    assert(m3.proc_of(w) == m2.proc_of(w));
                }
            }
        }
        if m0.ready_queue@.len() > 0 {
            let h = m2.ready_queue@[0];
            assert(h == m0.ready_queue@[0]) by {
                assert(m2.ready_queue@ == m1.ready_queue@);
                assert(m0.ready_queue@.is_prefix_of(m1.ready_queue@));
                assert(m0.ready_queue@ =~= m1.ready_queue@.subrange(
                    0,
                    m0.ready_queue@.len() as int,
                ));
            }
            let hi = idx_of(m2.procs(), h);
            assert(m3.proc_of(h).inner == (ProcessInner {
                status: ProgramStatus::Running,
                ..m2.procs()[hi].inner
            })) by {
                lemma_idx_of_unique(m3.procs(), h, hi);
            }
            assert(m3.current == h && m3.status_of(h) == ProgramStatus::Running);
            assert(*context == m3.proc_of(h).inner.context);
        }
    }
}

/// Block until process `pid` exits: the current process saves its context,
/// turns Blocked as a waiter on `pid`, and the CPU switches away; the
/// eventual wakeup writes `pid`'s exit code into the saved return register.
/// If `pid` is already Dead its exit code is returned at once, and an unknown
/// pid reads as failure.
pub fn wait_pid(m: &mut ProcessManager, pid: ProcessId, context: &mut ProcessContext)
    requires
        old(m).wf(),
        old(m).status_of(old(m).current) == ProgramStatus::Running,
    ensures
        final(m).wf(),
        old(m).has_proc(pid) && old(m).status_of(pid) != ProgramStatus::Dead ==> ({
            &&& final(m).status_of(old(m).current) == ProgramStatus::Blocked
            &&& final(m).waiters@.contains((old(m).current, pid))
            &&& final(m).proc_of(old(m).current).inner.context == *old(context)
            &&& (old(m).ready_queue@.len() > 0 ==> ({
                &&& final(m).current == old(m).ready_queue@[0]
                &&& final(m).ready_queue@ == old(m).ready_queue@.drop_first()
                &&& final(m).status_of(final(m).current) == ProgramStatus::Running
                &&& *final(context) == final(m).proc_of(final(m).current).inner.context
            }))
            &&& (old(m).ready_queue@.len() == 0 ==> final(m).current == old(m).current
                && *final(context) == *old(context))
        }),
        !(old(m).has_proc(pid) && old(m).status_of(pid) != ProgramStatus::Dead) ==> ({
            &&& *final(m) == *old(m)
            &&& *final(context) == (ProcessContext {
                rax: (if old(m).has_proc(pid) && old(m).proc_of(pid).inner.exit_code is Some {
                    old(m).proc_of(pid).inner.exit_code->Some_0 as u64
                } else {
                    u64::MAX
                }),
                ..*old(context)
            })
        }),
{
    let ghost m0 = *m;
    let alive = m.is_proc_alive(&pid);
    if alive {
        let cur = m.save_current(context);
        proof {
            lemma_update_same_pid(
                m0.procs(),
                idx_of(m0.procs(), m0.current),
                m.procs()[idx_of(m0.procs(), m0.current)],
            );
            assert(m.pids_wf()) by {
                assert forall|k: int| 0 <= k < m.procs().len() implies 1 <= (
                #[trigger] m.procs()[k]).pid.0 < m.pids.next by {
                    assert(m.procs()[k].pid == m0.procs()[k].pid);
                }
            }
            assert(m.has_proc(cur));
        }
        m.block_proc(&cur);
        m.add_waiting(pid);
        let ghost m1 = *m;
        proof {
            let i = idx_of(m0.procs(), m0.current);
            assert(m1.processes@ =~= m0.procs().update(i, m1.processes@[i]));
            lemma_parked_after_block(m0, m1, *old(context), pid);
            assert(m1.waiters@[m1.waiters@.len() - 1] == (m0.current, pid));
        }
        let _next = m.switch_next(context);
        proof {
            let m2 = *m;
            if m1.ready_queue@.len() > 0 {
                lemma_wf_after_pop(m1, m2);
                assert(m2.proc_of(m0.current) == m1.proc_of(m0.current)) by {
                    assert(m1.status_of(m1.ready_queue@[0]) == ProgramStatus::Ready);
                }
                let h = m1.ready_queue@[0];
                assert(m1.ready_queue@ == m0.ready_queue@);
                let hi = idx_of(m1.procs(), h);
                assert(m2.proc_of(h).inner == (ProcessInner {
                    status: ProgramStatus::Running,
                    ..m1.procs()[hi].inner
                })) by {
                    lemma_idx_of_unique(m2.procs(), h, hi);
                }
                assert(m2.current == h && m2.status_of(h) == ProgramStatus::Running);
                assert(*context == m2.proc_of(h).inner.context);
            }
            assert(m2.waiters@.contains((m0.current, pid))) by {
                assert(m2.waiters@[m2.waiters@.len() - 1] == (m0.current, pid));
            }
        }
    } else {
        let code = match m.get_exit_code(pid) {
            Some(code) => code as u64,
            None => u64::MAX,
        };
        context.set_rax(code);
    }
}

/// After `save_current` (and re-enqueueing a live current process) the
/// manager is parked: well formed with nothing Running, every Ready process
/// queued.
proof fn lemma_parked_after_save(
    m0: ProcessManager,
    m1: ProcessManager,
    saved: ProcessContext,
    alive: bool,
)
    requires
        m0.wf(),
        m0.status_of(m0.current) == ProgramStatus::Running || m0.status_of(m0.current)
            == ProgramStatus::Dead,
        alive == (m0.status_of(m0.current) != ProgramStatus::Dead),
        ({
            let i = idx_of(m0.procs(), m0.current);
            let p = m0.procs()[i];
            let ticks2: u64 = if p.inner.ticks_passed < u64::MAX {
                (p.inner.ticks_passed + 1) as u64
            } else {
                p.inner.ticks_passed
            };
            let inner2 = if p.inner.status != ProgramStatus::Dead {
                ProcessInner {
                    ticks_passed: ticks2,
                    context: saved,
                    status: ProgramStatus::Ready,
                    ..p.inner
                }
            } else {
                ProcessInner { ticks_passed: ticks2, ..p.inner }
            };
            &&& m1.processes@ == m0.procs().update(i, Process { pid: p.pid, inner: inner2 })
            &&& m1.ready_queue@ == (if alive {
                m0.ready_queue@.push(m0.current)
            } else {
                m0.ready_queue@
            })
            &&& m1.waiters == m0.waiters
            &&& m1.semaphores == m0.semaphores
            &&& m1.pids == m0.pids
            &&& m1.frames == m0.frames
            &&& m1.current == m0.current
        }),
    ensures
        parked(m1),
{
    let cur = m0.current;
    let i = idx_of(m0.procs(), cur);
    assert(0 <= i < m0.procs().len() && m0.procs()[i].pid == cur);
    let p = m0.procs()[i];
    let p1 = m1.processes@[i];
    lemma_update_same_pid(m0.procs(), i, p1);
    lemma_total_mapped_update(m0.procs(), i, p1);
    let q0 = m0.ready_queue@;
    let q1 = m1.ready_queue@;
    assert forall|k: int| 0 <= k < m1.procs().len() implies 1 <= (#[trigger] m1.procs()[k]).pid.0
        < m1.pids.next by {
        assert(m1.procs()[k].pid == m0.procs()[k].pid);
    }
    // queue members
    assert forall|x: int|
        0 <= x < q1.len() implies m1.has_proc(#[trigger] q1[x]) && m1.status_of(q1[x])
        == ProgramStatus::Ready by {
        if x < q0.len() {
            assert(m0.has_proc(q0[x]) && m0.status_of(q0[x]) == ProgramStatus::Ready);
            if q1[x] == cur {
                assert(m1.proc_of(cur) == p1);
            } else {
                assert(m1.proc_of(q1[x]) == m0.proc_of(q0[x]));
            }
        } else {
            assert(q1[x] == cur);
            assert(m1.proc_of(cur) == p1);
        }
    }
    // queue distinct: a live current was Running, so it was not queued
    assert forall|a: int, b: int| 0 <= a < b < q1.len() implies (#[trigger] q1[a]) != (
    #[trigger] q1[b]) by {
        if b < q0.len() {
        } else {
            assert(q1[b] == cur && q1[a] == q0[a]);
            assert(m0.status_of(q0[a]) == ProgramStatus::Ready);
            assert(m0.status_of(cur) == ProgramStatus::Running);
        }
    }
    // coverage
    assert forall|k: int|
        0 <= k < m1.procs().len() && (#[trigger] m1.procs()[k]).inner.status
            == ProgramStatus::Ready implies q1.contains(m1.procs()[k].pid) by {
        if k == i {
            assert(q1[q1.len() - 1] == cur);
        } else {
            assert(m1.procs()[k] == m0.procs()[k]);
            assert(q0.contains(m0.procs()[k].pid));
            let t = choose|t: int| 0 <= t < q0.len() && q0[t] == m0.procs()[k].pid;
            assert(q1[t] == m0.procs()[k].pid);
        }
    }
    // membership predicates unchanged
    assert forall|q: ProcessId| #[trigger] m1.in_waiters(q) == m0.in_waiters(q) by {}
    assert forall|q: ProcessId| #[trigger] m1.in_sems(q) == m0.in_sems(q) by {}
    // waiters statuses
    assert forall|x: int|
        0 <= x < m1.waiters@.len() implies m1.has_proc((#[trigger] m1.waiters@[x]).0) && (
        m1.status_of(m1.waiters@[x].0) == ProgramStatus::Blocked || m1.status_of(
            m1.waiters@[x].0,
        ) == ProgramStatus::Dead) by {
        let w = m1.waiters@[x].0;
        assert(m0.has_proc(w));
        if w == cur {
            assert(m0.status_of(cur) == ProgramStatus::Dead);
            assert(m1.proc_of(cur) == p1);
        } else {
            assert(m1.proc_of(w) == m0.proc_of(w));
        }
    }
    // semaphore waiter statuses: the current process is never among them
    assert forall|x: int, a: int|
        0 <= x < m1.semaphores.sems@.len() && 0 <= a < (#[trigger] m1.semaphores.sems@[
            x
        ]).1.waiters@.len() implies m1.has_proc(
        #[trigger] m1.semaphores.sems@[x].1.waiters@[a],
    ) && m1.status_of(m1.semaphores.sems@[x].1.waiters@[a]) == ProgramStatus::Blocked by {
        let w = m1.semaphores.sems@[x].1.waiters@[a];
        assert(m0.has_proc(w) && m0.status_of(w) == ProgramStatus::Blocked);
        assert(w != cur);
        assert(m1.proc_of(w) == m0.proc_of(w));
    }
    // statuses
    assert forall|k: int| 0 <= k < m1.procs().len() implies {
        let pk = #[trigger] m1.procs()[k];
        &&& (pk.inner.status != ProgramStatus::Running)
        &&& (pk.inner.status == ProgramStatus::Blocked ==> m1.in_waiters(pk.pid) || m1.in_sems(
            pk.pid,
        ))
        &&& (pk.inner.status == ProgramStatus::Ready ==> !m1.in_waiters(pk.pid) && !m1.in_sems(
            pk.pid,
        ))
        &&& (pk.inner.status == ProgramStatus::Dead ==> !m1.in_sems(pk.pid))
    } by {
        if k == i {
            assert(!m0.in_waiters(cur) || m0.status_of(cur) == ProgramStatus::Dead);
            assert(!m0.in_sems(cur));
        } else {
            assert(m1.procs()[k] == m0.procs()[k]);
            assert(m0.procs()[k].pid != cur);
            assert(m0.procs()[k].inner.status != ProgramStatus::Running);
        }
    }
    // per-process sanity and slots
    assert forall|k: int| 0 <= k < m1.procs().len() implies {
        let pk = #[trigger] m1.procs()[k];
        &&& (pk.inner.status == ProgramStatus::Dead <==> pk.inner.proc_vm is None)
        &&& (pk.inner.status == ProgramStatus::Dead <==> pk.inner.proc_data is None)
        &&& (pk.inner.status == ProgramStatus::Dead <==> pk.inner.exit_code is Some)
        &&& (pk.inner.proc_vm matches Some(vm) ==> vm.wf() && vm.stack.usage >= 1)
        &&& (pk.inner.proc_data matches Some(d) ==> d.wf())
    } by {
        if k != i {
            assert(m1.procs()[k] == m0.procs()[k]);
        }
    }
    assert forall|a: int, b: int|
        (0 <= a < m1.procs().len() && 0 <= b < m1.procs().len() && a != b && ((
        #[trigger] m1.procs()[a]).inner.proc_vm matches Some(_)) && ((#[trigger] m1.procs()[
            b
        ]).inner.proc_vm matches Some(_))) implies crate::stack::window_base(
        m1.procs()[a].inner.proc_vm->Some_0.stack.bottom,
    ) != crate::stack::window_base(m1.procs()[b].inner.proc_vm->Some_0.stack.bottom) by {
        assert(m1.procs()[a].inner.proc_vm == m0.procs()[a].inner.proc_vm);
        assert(m1.procs()[b].inner.proc_vm == m0.procs()[b].inner.proc_vm);
    }
    assert(p1.owned_pages() == p.owned_pages());
    assert(m1.frames_wf());
}


/// Create a semaphore under `key` holding `value` permits; 0 on success, 1
/// when the key is taken.
pub fn new_sem(m: &mut ProcessManager, key: u32, value: usize) -> (r: usize)
    requires
        old(m).wf(),
    ensures
        final(m).wf(),
        r == 0 <==> spec_get(old(m).semaphores.sems@, key) is None,
        r == 0 || r == 1,
        r == 0 ==> spec_get(final(m).semaphores.sems@, key) == Some(
            SemModel { count: value as int, waiters: Seq::<ProcessId>::empty() },
        ),
        r == 1 ==> *final(m) == *old(m),
        final(m).processes@ == old(m).processes@,
        final(m).ready_queue == old(m).ready_queue,
        final(m).waiters == old(m).waiters,
        final(m).current == old(m).current,
        forall|k: u32|
            k != key ==> #[trigger] spec_get(final(m).semaphores.sems@, k) == spec_get(
                old(m).semaphores.sems@,
                k,
            ),
{
    let ghost m0 = *m;
    let ok = m.semaphores.insert(key, value);
    proof {
        if ok {
            let s0 = m0.semaphores.sems@;
            let s1 = m.semaphores.sems@;
            assert(s1 == s0.push((key, s1.last().1)));
            assert forall|q: ProcessId| #[trigger] m.in_sems(q) == m0.in_sems(q) by {
                if m.in_sems(q) {
                    let x = choose|x: int|
                        0 <= x < s1.len() && #[trigger] s1[x].1@.waiters.contains(q);
                    if x < s0.len() {
                        assert(s0[x].1@.waiters.contains(q));
                    } else {
                        assert(s1[x].1@.waiters.len() == 0);
                    }
                }
                if m0.in_sems(q) {
                    let x = choose|x: int|
                        0 <= x < s0.len() && #[trigger] s0[x].1@.waiters.contains(q);
                    assert(s1[x].1@.waiters.contains(q));
                }
            }
            assert forall|x: int, a: int|
                0 <= x < s1.len() && 0 <= a < (#[trigger] s1[x]).1.waiters@.len() implies
                m.has_proc(#[trigger] s1[x].1.waiters@[a]) && m.status_of(s1[x].1.waiters@[a])
                == ProgramStatus::Blocked by {
                if x < s0.len() {
                    assert(s1[x] == s0[x]);
                }
            }
            assert forall|x: int, a: int, y: int, b: int|
                0 <= x < s1.len() && 0 <= a < s1[x].1.waiters@.len() && 0 <= y < s1.len() && 0
                    <= b < s1[y].1.waiters@.len() && (x != y || a != b) implies (
            #[trigger] s1[x].1.waiters@[a]) != (#[trigger] s1[y].1.waiters@[b]) by {
                assert(x < s0.len() && y < s0.len());
                assert(s1[x] == s0[x] && s1[y] == s0[y]);
            }
            assert forall|x: int|
                0 <= x < m.waiters@.len() implies !m.in_sems((#[trigger] m.waiters@[x]).0) by {
                assert(!m0.in_sems(m.waiters@[x].0));
            }
        }
    }
    if ok {
        0
    } else {
        1
    }
}

/// Drop the semaphore under `key`; 0 on success, 1 when it is absent or
/// still has waiters.
pub fn remove_sem(m: &mut ProcessManager, key: u32) -> (r: usize)
    requires
        old(m).wf(),
    ensures
        final(m).wf(),
        r == 0 || r == 1,
        r == 0 <==> (match spec_get(old(m).semaphores.sems@, key) {
            Some(sm) => sm.waiters.len() == 0,
            None => false,
        }),
        r == 0 ==> spec_get(final(m).semaphores.sems@, key) is None,
        r == 1 ==> *final(m) == *old(m),
        final(m).processes@ == old(m).processes@,
        forall|k: u32|
            k != key ==> #[trigger] spec_get(final(m).semaphores.sems@, k) == spec_get(
                old(m).semaphores.sems@,
                k,
            ),
{
    let ghost m0 = *m;
    let ok = m.semaphores.remove(key);
    proof {
        if ok {
            let s0 = m0.semaphores.sems@;
            let s1 = m.semaphores.sems@;
            assert forall|q: ProcessId| #[trigger] m.in_sems(q) == m0.in_sems(q) by {
                if m.in_sems(q) {
                    assert(m0.in_sems(q));
                }
                if m0.in_sems(q) {
                    let x = choose|x: int|
                        0 <= x < s0.len() && #[trigger] s0[x].1@.waiters.contains(q);
                    let j = choose|j: int|
                        0 <= j < s0.len() && (#[trigger] s0[j]).0 == key && s0[j].1.waiters@.len()
                            == 0 && s1 == s0.remove(j);
                    if x < j {
                        assert(s1[x] == s0[x]);
                        assert(s1[x].1@.waiters.contains(q));
                    } else if x > j {
                        assert(s1[x - 1] == s0[x]);
                        assert(s1[x - 1].1@.waiters.contains(q));
                    } else {
                        assert(s0[x].1@.waiters.len() == 0);
                    }
                }
            }
            assert forall|x: int, a: int|
                0 <= x < s1.len() && 0 <= a < (#[trigger] s1[x]).1.waiters@.len() implies
                m.has_proc(#[trigger] s1[x].1.waiters@[a]) && m.status_of(s1[x].1.waiters@[a])
                == ProgramStatus::Blocked by {
                let j = choose|j: int|
                    0 <= j < s0.len() && (#[trigger] s0[j]).0 == key && s0[j].1.waiters@.len()
                        == 0 && s1 == s0.remove(j);
                let x0: int = if x < j {
                    x
                } else {
                    x + 1
                };
                assert(s1[x] == s0[x0]);
            }
            assert forall|x: int, a: int, y: int, b: int|
                0 <= x < s1.len() && 0 <= a < s1[x].1.waiters@.len() && 0 <= y < s1.len() && 0
                    <= b < s1[y].1.waiters@.len() && (x != y || a != b) implies (
            #[trigger] s1[x].1.waiters@[a]) != (#[trigger] s1[y].1.waiters@[b]) by {
                let j = choose|j: int|
                    0 <= j < s0.len() && (#[trigger] s0[j]).0 == key && s0[j].1.waiters@.len()
                        == 0 && s1 == s0.remove(j);
                let x0: int = if x < j {
                    x
                } else {
                    x + 1
                };
                let y0: int = if y < j {
                    y
                } else {
                    y + 1
                };
                assert(s1[x] == s0[x0] && s1[y] == s0[y0]);
            }
            assert forall|x: int|
                0 <= x < m.waiters@.len() implies !m.in_sems((#[trigger] m.waiters@[x]).0) by {
                assert(!m0.in_sems(m.waiters@[x].0));
            }
        }
    }
    if ok {
        0
    } else {
        1
    }
}


/// Dequeuing the head waiter of the semaphore under `key` leaves the manager
/// well formed except that the dequeued pid awaits its wakeup.
proof fn lemma_wf_except_after_sem_dequeue(
    m0: ProcessManager,
    m1: ProcessManager,
    key: u32,
    p: ProcessId,
)
    requires
        m0.wf(),
        ({
            match spec_get(m0.semaphores.sems@, key) {
                Some(sm) => {
                    let (sm2, r) = sem_signal_spec(sm);
                    &&& r == SemaphoreResult::WakeUp(p)
                    &&& sem_updated_at(m0.semaphores.sems@, m1.semaphores.sems@, key, sm, sm2)
                },
                None => false,
            }
        }),
        m1 == (ProcessManager { semaphores: m1.semaphores, ..m0 }),
    ensures
        m1.wf_except_blocked(seq![p]),
        m1.has_proc(p),
        m1.status_of(p) == ProgramStatus::Blocked,
        !m1.in_waiters(p),
        !m1.in_sems(p),
        m1.semaphores.wf(),
{
    let s0 = m0.semaphores.sems@;
    let s1 = m1.semaphores.sems@;
    let sm = spec_get(s0, key)->Some_0;
    let (sm2, r) = sem_signal_spec(sm);
    let j = choose|j: int|
        0 <= j < s0.len() && (#[trigger] s0[j]).0 == key && s0[j].1@ == sm && s1 == s0.update(
            j,
            (key, s1[j].1),
        ) && s1[j].1@ == sm2;
    assert(sm.waiters[0] == p);
    assert(sm2.waiters == sm.waiters.drop_first());
    assert(s0[j].1.waiters@[0] == p);
    assert(m0.has_proc(p) && m0.status_of(p) == ProgramStatus::Blocked);
    assert(m1.has_proc(p) && m1.status_of(p) == ProgramStatus::Blocked);
    assert(!m0.in_waiters(p)) by {
        if m0.in_waiters(p) {
            let x = choose|x: int| 0 <= x < m0.waiters@.len() && (#[trigger] m0.waiters@[x]).0 == p;
            assert(s0[j].1@.waiters.contains(p));
            assert(m0.in_sems(p));
        }
    }
    // p sat exactly once across all queues, so it is gone now
    assert(!m1.in_sems(p)) by {
        if m1.in_sems(p) {
            let x = choose|x: int| 0 <= x < s1.len() && #[trigger] s1[x].1@.waiters.contains(p);
            let a = choose|a: int| 0 <= a < s1[x].1@.waiters.len() && s1[x].1@.waiters[a] == p;
            if x == j {
                assert(s1[j].1.waiters@[a] == sm.waiters[a + 1]);
                assert(s0[j].1.waiters@[a + 1] == p);
                assert(s0[j].1.waiters@[0] != s0[j].1.waiters@[a + 1]);
            } else {
                assert(s1[x] == s0[x]);
                assert(s0[x].1.waiters@[a] == p);
                assert(s0[x].1.waiters@[a] != s0[j].1.waiters@[0]);
            }
        }
    }
    // other pids keep their queue membership
    assert forall|q: ProcessId| q != p implies #[trigger] m1.in_sems(q) == m0.in_sems(q) by {
        if m1.in_sems(q) {
            let x = choose|x: int| 0 <= x < s1.len() && #[trigger] s1[x].1@.waiters.contains(q);
            let a = choose|a: int| 0 <= a < s1[x].1@.waiters.len() && s1[x].1@.waiters[a] == q;
            if x == j {
                assert(s0[j].1@.waiters[a + 1] == q);
                assert(s0[j].1@.waiters.contains(q));
            } else {
                assert(s1[x] == s0[x]);
            }
            assert(m0.in_sems(q));
        }
        if m0.in_sems(q) {
            let x = choose|x: int| 0 <= x < s0.len() && #[trigger] s0[x].1@.waiters.contains(q);
            let a = choose|a: int| 0 <= a < s0[x].1@.waiters.len() && s0[x].1@.waiters[a] == q;
            if x == j {
                assert(a != 0);
                assert(s1[j].1@.waiters[a - 1] == q);
                assert(s1[j].1@.waiters.contains(q));
            } else {
                assert(s1[x] == s0[x]);
                assert(s1[x].1@.waiters.contains(q));
            }
            assert(m1.in_sems(q));
        }
    }
    assert forall|q: ProcessId| #[trigger] m1.in_waiters(q) == m0.in_waiters(q) by {}
    // semaphore queues still hold known, Blocked, once-only pids
    assert forall|x: int, a: int|
        0 <= x < s1.len() && 0 <= a < (#[trigger] s1[x]).1.waiters@.len() implies m1.has_proc(
        #[trigger] s1[x].1.waiters@[a],
    ) && m1.status_of(s1[x].1.waiters@[a]) == ProgramStatus::Blocked by {
        if x == j {
            assert(s1[j].1.waiters@[a] == s0[j].1.waiters@[a + 1]);
        } else {
            assert(s1[x] == s0[x]);
        }
    }
    assert forall|x: int, a: int, y: int, b: int|
        0 <= x < s1.len() && 0 <= a < s1[x].1.waiters@.len() && 0 <= y < s1.len() && 0 <= b
            < s1[y].1.waiters@.len() && (x != y || a != b) implies (
    #[trigger] s1[x].1.waiters@[a]) != (#[trigger] s1[y].1.waiters@[b]) by {
        let a0: int = if x == j {
            a + 1
        } else {
            a
        };
        let b0: int = if y == j {
            b + 1
        } else {
            b
        };
        assert(s1[x].1.waiters@[a] == s0[x].1.waiters@[a0]);
        assert(s1[y].1.waiters@[b] == s0[y].1.waiters@[b0]);
    }
    assert forall|x: int|
        0 <= x < m1.waiters@.len() implies !m1.in_sems((#[trigger] m1.waiters@[x]).0) by {
        assert(!m0.in_sems(m1.waiters@[x].0));
        if m1.in_sems(m1.waiters@[x].0) {
            assert(m1.waiters@[x].0 != p);
        }
    }
    // blocked coverage with the dequeued pid pending
    assert forall|k: int|
        0 <= k < m1.procs().len() && (#[trigger] m1.procs()[k]).inner.status
            == ProgramStatus::Blocked implies m1.in_waiters(m1.procs()[k].pid) || m1.in_sems(
        m1.procs()[k].pid,
    ) || seq![p].contains(m1.procs()[k].pid) by {
        let q = m1.procs()[k].pid;
        if q == p {
            assert(seq![p][0] == p);
        } else {
            assert(m0.in_waiters(q) || m0.in_sems(q));
        }
    }
    assert forall|k: int|
        0 <= k < m1.procs().len() && ((#[trigger] m1.procs()[k]).inner.status
            == ProgramStatus::Ready || m1.procs()[k].inner.status == ProgramStatus::Running)
        implies !m1.in_waiters(m1.procs()[k].pid) && !m1.in_sems(m1.procs()[k].pid) by {
        let q = m1.procs()[k].pid;
        assert(q != p);
    }
    assert forall|k: int|
        0 <= k < m1.procs().len() && (#[trigger] m1.procs()[k]).inner.status
            == ProgramStatus::Dead implies !m1.in_sems(m1.procs()[k].pid) by {
        let q = m1.procs()[k].pid;
        assert(q != p);
    }
}

/// `signal` on the semaphore under `key`: one more permit, handed to the
/// head of its queue when one is waiting; that waiter turns Ready. The saved
/// return register of a woken waiter is untouched. The caller's return is 0
/// for a completed signal and 1 for an unknown key.
pub fn sem_signal(m: &mut ProcessManager, key: u32, context: &mut ProcessContext)
    requires
        old(m).wf(),
    ensures
        final(m).wf(),
        final(m).processes@.len() == old(m).processes@.len(),
        match spec_get(old(m).semaphores.sems@, key) {
            None => *final(context) == (ProcessContext { rax: 1, ..*old(context) }) && *final(m)
                == *old(m),
            Some(sm) => {
                let (sm2, r) = sem_signal_spec(sm);
                &&& spec_get(final(m).semaphores.sems@, key) == Some(sm2)
                &&& (r is WakeUp ==> ({
                    let p = r->WakeUp_0;
                    &&& final(m).status_of(p) == ProgramStatus::Ready
                    &&& final(m).proc_of(p).inner.context == old(m).proc_of(p).inner.context
                    &&& final(m).ready_queue@.contains(p)
                    &&& *final(context) == *old(context)
                }))
                &&& (r is Done ==> *final(context) == (ProcessContext {
                    rax: 0,
                    ..*old(context)
                }))
            },
        },
{
    let ghost m0 = *m;
    let r = m.semaphores.signal(key);
    match r {
        SemaphoreResult::NotExist => {
            context.set_rax(1);
        },
        SemaphoreResult::Done => {
            proof {
                let s0 = m0.semaphores.sems@;
                let s1 = m.semaphores.sems@;
                let sm = spec_get(s0, key)->Some_0;
                let (sm2, rr) = sem_signal_spec(sm);
                let j = choose|j: int|
                    0 <= j < s0.len() && (#[trigger] s0[j]).0 == key && s0[j].1@ == sm && s1
                        == s0.update(j, (key, s1[j].1)) && s1[j].1@ == sm2;
                assert(sm2.waiters == sm.waiters);
                assert forall|q: ProcessId| #[trigger] m.in_sems(q) == m0.in_sems(q) by {
                    if m.in_sems(q) {
                        let x = choose|x: int|
                            0 <= x < s1.len() && #[trigger] s1[x].1@.waiters.contains(q);
                        if x == j {
                            assert(s0[j].1@.waiters.contains(q));
                        } else {
                            assert(s1[x] == s0[x]);
                        }
                    }
                    if m0.in_sems(q) {
                        let x = choose|x: int|
                            0 <= x < s0.len() && #[trigger] s0[x].1@.waiters.contains(q);
                        if x == j {
                            assert(s1[j].1@.waiters.contains(q));
                        } else {
                            assert(s1[x] == s0[x]);
                        }
                    }
                }
                assert forall|x: int, a: int|
                    0 <= x < s1.len() && 0 <= a < (#[trigger] s1[x]).1.waiters@.len() implies
                    m.has_proc(#[trigger] s1[x].1.waiters@[a]) && m.status_of(
                    s1[x].1.waiters@[a],
                ) == ProgramStatus::Blocked by {
                    let a0 = s0[x].1.waiters@[a];
                    if x == j {
                        assert(s1[j].1.waiters@ == s0[j].1.waiters@);
                    } else {
                        assert(s1[x] == s0[x]);
                    }
                }
                assert forall|x: int, a: int, y: int, b: int|
                    0 <= x < s1.len() && 0 <= a < s1[x].1.waiters@.len() && 0 <= y < s1.len() && 0
                        <= b < s1[y].1.waiters@.len() && (x != y || a != b) implies (
                #[trigger] s1[x].1.waiters@[a]) != (#[trigger] s1[y].1.waiters@[b]) by {
                    assert(s1[x].1.waiters@ == s0[x].1.waiters@);
                    assert(s1[y].1.waiters@ == s0[y].1.waiters@);
                }
                assert forall|x: int|
                    0 <= x < m.waiters@.len() implies !m.in_sems(
                    (#[trigger] m.waiters@[x]).0,
                ) by {
                    assert(!m0.in_sems(m.waiters@[x].0));
                }
            }
            context.set_rax(0);
        },
        SemaphoreResult::WakeUp(p) => {
            proof {
                lemma_wf_except_after_sem_dequeue(m0, *m, key, p);
            }
            let ghost pending1: Seq<ProcessId> = seq![p];
            m.wake_up(p, Ghost(pending1));
            proof {
                assert(seq![p].drop_first() =~= Seq::<ProcessId>::empty());
                crate::manager::lemma_wf_from_no_pending(*m);
                assert(m.ready_queue@[m.ready_queue@.len() - 1] == p);
            }
        },
        SemaphoreResult::Block(_) => {
            unreached::<()>()
        },
    }
}


/// After the Running current process enqueues on a semaphore, saves its
/// context and turns Blocked, the manager is parked.
proof fn lemma_parked_after_sem_block(
    m0: ProcessManager,
    m1: ProcessManager,
    saved: ProcessContext,
    key: u32,
)
    requires
        m0.wf(),
        m0.status_of(m0.current) == ProgramStatus::Running,
        ({
            match spec_get(m0.semaphores.sems@, key) {
                Some(sm) => {
                    let (sm2, r) = sem_wait_spec(sm, m0.current);
                    &&& r == SemaphoreResult::Block(m0.current)
                    &&& sem_updated_at(m0.semaphores.sems@, m1.semaphores.sems@, key, sm, sm2)
                },
                None => false,
            }
        }),
        ({
            let i = idx_of(m0.procs(), m0.current);
            let p = m0.procs()[i];
            let ticks2: u64 = if p.inner.ticks_passed < u64::MAX {
                (p.inner.ticks_passed + 1) as u64
            } else {
                p.inner.ticks_passed
            };
            &&& m1.processes@ == m0.procs().update(
                i,
                Process {
                    pid: p.pid,
                    inner: ProcessInner {
                        ticks_passed: ticks2,
                        context: saved,
                        status: ProgramStatus::Blocked,
                        ..p.inner
                    },
                },
            )
            &&& m1.waiters == m0.waiters
            &&& m1.ready_queue == m0.ready_queue
            &&& m1.current == m0.current
            &&& m1.pids == m0.pids
            &&& m1.frames == m0.frames
            &&& m1.semaphores.wf()
        }),
    ensures
        m1.wf(),
        m1.no_running(),
        m1.status_of(m1.current) == ProgramStatus::Blocked,
        m1.proc_of(m1.current).inner.context == saved,
        forall|q: ProcessId| #[trigger] m1.has_proc(q) == m0.has_proc(q),
        forall|q: ProcessId|
            q != m0.current && m0.has_proc(q) ==> #[trigger] m1.proc_of(q) == m0.proc_of(q),
{
    let cur = m0.current;
    let i = idx_of(m0.procs(), cur);
    assert(0 <= i < m0.procs().len() && m0.procs()[i].pid == cur);
    let p = m0.procs()[i];
    let p2 = m1.processes@[i];
    lemma_update_same_pid(m0.procs(), i, p2);
    lemma_total_mapped_update(m0.procs(), i, p2);
    let s0 = m0.semaphores.sems@;
    let s1 = m1.semaphores.sems@;
    let sm = spec_get(s0, key)->Some_0;
    let (sm2, r) = sem_wait_spec(sm, cur);
    let j = choose|j: int|
        0 <= j < s0.len() && (#[trigger] s0[j]).0 == key && s0[j].1@ == sm && s1 == s0.update(
            j,
            (key, s1[j].1),
        ) && s1[j].1@ == sm2;
    assert(sm2.waiters == sm.waiters.push(cur));
    assert forall|k: int| 0 <= k < m1.procs().len() implies 1 <= (#[trigger] m1.procs()[k]).pid.0
        < m1.pids.next by {
        assert(m1.procs()[k].pid == m0.procs()[k].pid);
    }
    let q0 = m0.ready_queue@;
    assert forall|x: int|
        0 <= x < q0.len() implies m1.has_proc(#[trigger] q0[x]) && m1.status_of(q0[x])
        == ProgramStatus::Ready by {
        assert(m0.status_of(q0[x]) == ProgramStatus::Ready);
        assert(q0[x] != cur);
        assert(m1.proc_of(q0[x]) == m0.proc_of(q0[x]));
    }
    assert forall|k: int|
        0 <= k < m1.procs().len() && (#[trigger] m1.procs()[k]).inner.status
            == ProgramStatus::Ready implies q0.contains(m1.procs()[k].pid) by {
        assert(k != i);
        assert(m1.procs()[k] == m0.procs()[k]);
    }
    assert forall|q: ProcessId| #[trigger] m1.in_waiters(q) == m0.in_waiters(q) by {}
    // queue membership: everyone as before, plus the current process
    assert(m1.in_sems(cur)) by {
        assert(s1[j].1.waiters@[s1[j].1.waiters@.len() - 1] == cur);
        assert(s1[j].1@.waiters.contains(cur));
    }
    assert forall|q: ProcessId| q != cur implies #[trigger] m1.in_sems(q) == m0.in_sems(q) by {
        if m1.in_sems(q) {
            let x = choose|x: int| 0 <= x < s1.len() && #[trigger] s1[x].1@.waiters.contains(q);
            let a = choose|a: int| 0 <= a < s1[x].1@.waiters.len() && s1[x].1@.waiters[a] == q;
            if x == j {
                assert(a < sm.waiters.len());
                assert(s0[j].1@.waiters[a] == q);
                assert(s0[j].1@.waiters.contains(q));
            } else {
                assert(s1[x] == s0[x]);
            }
            assert(m0.in_sems(q));
        }
        if m0.in_sems(q) {
            let x = choose|x: int| 0 <= x < s0.len() && #[trigger] s0[x].1@.waiters.contains(q);
            let a = choose|a: int| 0 <= a < s0[x].1@.waiters.len() && s0[x].1@.waiters[a] == q;
            if x == j {
                assert(s1[j].1@.waiters[a] == q);
                assert(s1[j].1@.waiters.contains(q));
            } else {
                assert(s1[x] == s0[x]);
                assert(s1[x].1@.waiters.contains(q));
            }
            assert(m1.in_sems(q));
        }
    }
    // waiter map entries untouched; none of them is the current process
    assert forall|x: int|
        0 <= x < m1.waiters@.len() implies m1.has_proc((#[trigger] m1.waiters@[x]).0) && (
        m1.status_of(m1.waiters@[x].0) == ProgramStatus::Blocked || m1.status_of(
            m1.waiters@[x].0,
        ) == ProgramStatus::Dead) && !m1.in_sems(m1.waiters@[x].0) by {
        let w = m1.waiters@[x].0;
        assert(m0.has_proc(w));
        assert(w != cur);
        assert(m1.proc_of(w) == m0.proc_of(w));
        assert(!m0.in_sems(w));
        assert(m1.in_sems(w) == m0.in_sems(w));
    }
    // semaphore queues: old members plus the Blocked current, all distinct
    assert forall|x: int, a: int|
        0 <= x < s1.len() && 0 <= a < (#[trigger] s1[x]).1.waiters@.len() implies m1.has_proc(
        #[trigger] s1[x].1.waiters@[a],
    ) && m1.status_of(s1[x].1.waiters@[a]) == ProgramStatus::Blocked by {
        let w = s1[x].1.waiters@[a];
        if x == j && a == s1[j].1.waiters@.len() - 1 {
            assert(w == cur);
            assert(m1.proc_of(cur) == p2);
        } else {
            if x == j {
                assert(s0[j].1.waiters@[a] == w);
            } else {
                assert(s1[x] == s0[x]);
            }
            assert(m0.has_proc(w) && m0.status_of(w) == ProgramStatus::Blocked);
            assert(w != cur);
            assert(m1.proc_of(w) == m0.proc_of(w));
        }
    }
    assert forall|x: int, a: int, y: int, b: int|
        0 <= x < s1.len() && 0 <= a < s1[x].1.waiters@.len() && 0 <= y < s1.len() && 0 <= b
            < s1[y].1.waiters@.len() && (x != y || a != b) implies (
    #[trigger] s1[x].1.waiters@[a]) != (#[trigger] s1[y].1.waiters@[b]) by {
        let last = s1[j].1.waiters@.len() - 1;
        if x == j && a == last {
            assert(s1[x].1.waiters@[a] == cur);
            if y == j {
                assert(s1[y].1.waiters@[b] == s0[j].1.waiters@[b]);
                assert(m0.status_of(s0[j].1.waiters@[b]) == ProgramStatus::Blocked);
            } else {
                assert(s1[y] == s0[y]);
                assert(m0.status_of(s0[y].1.waiters@[b]) == ProgramStatus::Blocked);
            }
        } else if y == j && b == last {
            assert(s1[y].1.waiters@[b] == cur);
            if x == j {
                assert(s1[x].1.waiters@[a] == s0[j].1.waiters@[a]);
                assert(m0.status_of(s0[j].1.waiters@[a]) == ProgramStatus::Blocked);
            } else {
                assert(s1[x] == s0[x]);
                assert(m0.status_of(s0[x].1.waiters@[a]) == ProgramStatus::Blocked);
            }
        } else {
            let wa = if x == j {
                s0[j].1.waiters@[a]
            } else {
                s0[x].1.waiters@[a]
            };
            assert(s1[x].1.waiters@[a] == s0[x].1.waiters@[a]);
            assert(s1[y].1.waiters@[b] == s0[y].1.waiters@[b]);
        }
    }
    // statuses
    assert(m1.has_proc(m1.current));
    assert forall|k: int| 0 <= k < m1.procs().len() implies {
        let pk = #[trigger] m1.procs()[k];
        &&& (pk.inner.status != ProgramStatus::Running)
        &&& (pk.inner.status == ProgramStatus::Blocked ==> m1.in_waiters(pk.pid) || m1.in_sems(
            pk.pid,
        ))
        &&& (pk.inner.status == ProgramStatus::Ready || pk.inner.status == ProgramStatus::Running
            ==> !m1.in_waiters(pk.pid) && !m1.in_sems(pk.pid))
        &&& (pk.inner.status == ProgramStatus::Dead ==> !m1.in_sems(pk.pid))
    } by {
        if k == i {
            assert(m1.procs()[k] == p2);
            assert(m1.in_sems(cur));
        } else {
            assert(m1.procs()[k] == m0.procs()[k]);
            assert(m0.procs()[k].pid != cur);
            assert(m0.procs()[k].inner.status != ProgramStatus::Running);
            assert(m1.in_sems(m0.procs()[k].pid) == m0.in_sems(m0.procs()[k].pid));
        }
    }
    assert forall|k: int| 0 <= k < m1.procs().len() implies {
        let pk = #[trigger] m1.procs()[k];
        &&& (pk.inner.status == ProgramStatus::Dead <==> pk.inner.proc_vm is None)
        &&& (pk.inner.status == ProgramStatus::Dead <==> pk.inner.proc_data is None)
        &&& (pk.inner.status == ProgramStatus::Dead <==> pk.inner.exit_code is Some)
        &&& (pk.inner.proc_vm matches Some(vm) ==> vm.wf() && vm.stack.usage >= 1)
        &&& (pk.inner.proc_data matches Some(d) ==> d.wf())
    } by {
        if k != i {
            assert(m1.procs()[k] == m0.procs()[k]);
        }
    }
    assert forall|a: int, b: int|
        (0 <= a < m1.procs().len() && 0 <= b < m1.procs().len() && a != b && ((
        #[trigger] m1.procs()[a]).inner.proc_vm matches Some(_)) && ((#[trigger] m1.procs()[
            b
        ]).inner.proc_vm matches Some(_))) implies crate::stack::window_base(
        m1.procs()[a].inner.proc_vm->Some_0.stack.bottom,
    ) != crate::stack::window_base(m1.procs()[b].inner.proc_vm->Some_0.stack.bottom) by {
        assert(m1.procs()[a].inner.proc_vm == m0.procs()[a].inner.proc_vm);
        assert(m1.procs()[b].inner.proc_vm == m0.procs()[b].inner.proc_vm);
    }
    assert(p2.owned_pages() == p.owned_pages());
    assert(m1.frames_wf());
}

/// `wait` on the semaphore under `key` for the current process: take a
/// permit, or park the caller at the tail of the semaphore's queue and
/// switch away. The caller's return is 0 for a taken permit and 1 for an
/// unknown key.
pub fn sem_wait(m: &mut ProcessManager, key: u32, context: &mut ProcessContext)
    requires
        old(m).wf(),
        old(m).status_of(old(m).current) == ProgramStatus::Running,
    ensures
        final(m).wf(),
        match spec_get(old(m).semaphores.sems@, key) {
            None => *final(context) == (ProcessContext { rax: 1, ..*old(context) }) && *final(m)
                == *old(m),
            Some(sm) => {
                let (sm2, r) = sem_wait_spec(sm, old(m).current);
                &&& spec_get(final(m).semaphores.sems@, key) == Some(sm2)
                &&& (r is Done ==> *final(context) == (ProcessContext {
                    rax: 0,
                    ..*old(context)
                }))
                &&& (r is Block ==> ({
                    &&& final(m).status_of(old(m).current) == ProgramStatus::Blocked
                    &&& final(m).proc_of(old(m).current).inner.context == *old(context)
                    &&& sm2.waiters[sm2.waiters.len() - 1] == old(m).current
                }))
            },
        },
{
    let ghost m0 = *m;
    let cur = m.get_pid();
    let r = m.semaphores.wait(key, cur);
    match r {
        SemaphoreResult::NotExist => {
            context.set_rax(1);
        },
        SemaphoreResult::Done => {
            proof {
                let s0 = m0.semaphores.sems@;
                let s1 = m.semaphores.sems@;
                let sm = spec_get(s0, key)->Some_0;
                let (sm2, rr) = sem_wait_spec(sm, cur);
                let j = choose|j: int|
                    0 <= j < s0.len() && (#[trigger] s0[j]).0 == key && s0[j].1@ == sm && s1
                        == s0.update(j, (key, s1[j].1)) && s1[j].1@ == sm2;
                assert(sm2.waiters == sm.waiters);
                assert forall|q: ProcessId| #[trigger] m.in_sems(q) == m0.in_sems(q) by {
                    if m.in_sems(q) {
                        let x = choose|x: int|
                            0 <= x < s1.len() && #[trigger] s1[x].1@.waiters.contains(q);
                        if x == j {
                            assert(s0[j].1@.waiters.contains(q));
                        } else {
                            assert(s1[x] == s0[x]);
                        }
                    }
                    if m0.in_sems(q) {
                        let x = choose|x: int|
                            0 <= x < s0.len() && #[trigger] s0[x].1@.waiters.contains(q);
                        if x == j {
                            assert(s1[j].1@.waiters.contains(q));
                        } else {
                            assert(s1[x] == s0[x]);
                        }
                    }
                }
                assert forall|x: int, a: int|
                    0 <= x < s1.len() && 0 <= a < (#[trigger] s1[x]).1.waiters@.len() implies
                    m.has_proc(#[trigger] s1[x].1.waiters@[a]) && m.status_of(
                    s1[x].1.waiters@[a],
                ) == ProgramStatus::Blocked by {
                    if x == j {
                        assert(s1[j].1.waiters@ == s0[j].1.waiters@);
                    } else {
                        assert(s1[x] == s0[x]);
                    }
                }
                assert forall|x: int, a: int, y: int, b: int|
                    0 <= x < s1.len() && 0 <= a < s1[x].1.waiters@.len() && 0 <= y < s1.len() && 0
                        <= b < s1[y].1.waiters@.len() && (x != y || a != b) implies (
                #[trigger] s1[x].1.waiters@[a]) != (#[trigger] s1[y].1.waiters@[b]) by {
                    assert(s1[x].1.waiters@ == s0[x].1.waiters@);
                    assert(s1[y].1.waiters@ == s0[y].1.waiters@);
                }
                assert forall|x: int|
                    0 <= x < m.waiters@.len() implies !m.in_sems(
                    (#[trigger] m.waiters@[x]).0,
                ) by {
                    assert(!m0.in_sems(m.waiters@[x].0));
                }
            }
            context.set_rax(0);
        },
        SemaphoreResult::Block(_) => {
            let ghost m_q = *m;
            let saved_pid = m.save_current(context);
            proof {
                lemma_update_same_pid(
                    m0.procs(),
                    idx_of(m0.procs(), cur),
                    m.procs()[idx_of(m0.procs(), cur)],
                );
                assert(m.pids_wf()) by {
                    assert forall|k: int| 0 <= k < m.procs().len() implies 1 <= (
                    #[trigger] m.procs()[k]).pid.0 < m.pids.next by {
                        assert(m.procs()[k].pid == m0.procs()[k].pid);
                    }
                }
                assert(m.has_proc(cur));
            }
            m.block_proc(&saved_pid);
            let ghost m1 = *m;
            proof {
                let i = idx_of(m0.procs(), cur);
                assert(m1.processes@ =~= m0.procs().update(i, m1.processes@[i]));
                lemma_parked_after_sem_block(m0, m1, *old(context), key);
            }
            let _next = m.switch_next(context);
            proof {
                let m2 = *m;
                if m1.ready_queue@.len() > 0 {
                    lemma_wf_after_pop(m1, m2);
                    assert(m2.proc_of(cur) == m1.proc_of(cur)) by {
                        assert(m1.status_of(m1.ready_queue@[0]) == ProgramStatus::Ready);
                    }
                }
            }
        },
        SemaphoreResult::WakeUp(_) => {
            unreached::<()>()
        },
    }
}


/// Move the current process's program break; see the heap's transition for
/// the exact result. Failure (out of range or out of frames) returns -1 to
/// the caller.
pub fn brk(m: &mut ProcessManager, addr: Option<u64>) -> (r: isize)
    requires
        old(m).wf(),
        old(m).status_of(old(m).current) != ProgramStatus::Dead,
    ensures
        final(m).wf(),
        ({
            let vm0 = old(m).proc_of(old(m).current).inner.proc_vm->Some_0;
            let (h2, f2, r2) = crate::heap::brk_spec(
                vm0.heap,
                old(m).frames.free as int,
                addr,
            );
            &&& (r2 is Some ==> r == r2->Some_0 as isize && final(m).proc_of(
                old(m).current,
            ).inner.proc_vm->Some_0.heap == h2 && final(m).frames.free == f2)
            &&& (r2 is None ==> r == -1 && final(m).processes@ == old(m).processes@
                && final(m).frames == old(m).frames)
        }),
        final(m).current == old(m).current,
        final(m).status_of(old(m).current) == old(m).status_of(old(m).current),
        final(m).ready_queue == old(m).ready_queue,
        final(m).waiters == old(m).waiters,
        final(m).semaphores == old(m).semaphores,
{
    let ghost m0 = *m;
    let cur = m.get_pid();
    let i = match m.find_proc(cur) {
        Some(i) => i,
        None => unreached(),
    };
    proof {
        lemma_idx_of_unique(m0.procs(), cur, i as int);
        assert forall|k: int| 0 <= k < m0.procs().len() implies (#[trigger] m0.procs()[
            k
        ]).owned_pages() >= 0 by {
            crate::manager::lemma_owned_pages_nonneg(m0.procs()[k]);
        }
        crate::manager::lemma_total_mapped_bound(m0.procs(), i as int);
    }
    let mut vmslot: Option<ProcessVm> = None;
    let pr = &mut m.processes[i];
    core::mem::swap(&mut pr.inner.proc_vm, &mut vmslot);
    let ghost m_swapped = *m;
    let r: isize = match &mut vmslot {
        Some(vm) => {
            let hr = vm.heap.brk(addr, &mut m.frames);
            match hr {
                Some(end) => end as isize,
                None => -1,
            }
        },
        None => {
            unreached::<isize>()
        },
    };
    let pr2 = &mut m.processes[i];
    core::mem::swap(&mut pr2.inner.proc_vm, &mut vmslot);
    proof {
        let p = m0.procs()[i as int];
        let p2 = m.processes@[i as int];
        assert(m.processes@ =~= m0.procs().update(i as int, p2));
        assert(p2.pid == p.pid && p2.inner.status == p.inner.status && p2.inner.proc_data
            == p.inner.proc_data && p2.inner.context == p.inner.context);
        lemma_update_same_pid(m0.procs(), i as int, p2);
        lemma_total_mapped_update(m0.procs(), i as int, p2);
        let vm0 = p.inner.proc_vm->Some_0;
        let vm2 = p2.inner.proc_vm->Some_0;
        assert(vm2.stack == vm0.stack && vm2.code_pages == vm0.code_pages);
        assert(m.frames.free + p2.owned_pages() == m0.frames.free + p.owned_pages());
        lemma_wf_after_vm_change(m0, *m, i as int);
        let (h2, f2, r2) = crate::heap::brk_spec(vm0.heap, m0.frames.free as int, addr);
        if r2 is None {
            assert(p2 == p);
            assert(m.processes@ =~= m0.processes@);
        }
    }
    r
}

/// Resolve a page fault for the current process: protection violations and
/// addresses outside the current stack slot are fatal (false); an in-slot
/// fault grows the stack when frames allow.
pub fn handle_page_fault(m: &mut ProcessManager, addr: u64, protection_violation: bool) -> (r:
    bool)
    requires
        old(m).wf(),
        old(m).status_of(old(m).current) != ProgramStatus::Dead,
    ensures
        final(m).wf(),
        protection_violation ==> r == false && *final(m) == *old(m),
        !protection_violation ==> ({
            let vm0 = old(m).proc_of(old(m).current).inner.proc_vm->Some_0;
            let (s2, f2, r2) = crate::stack::page_fault_spec(
                vm0.stack,
                old(m).frames.free as int,
                addr,
            );
            &&& r == r2
            &&& final(m).proc_of(old(m).current).inner.proc_vm->Some_0.stack == s2
            &&& final(m).frames.free == f2
            &&& final(m).proc_of(old(m).current).inner.proc_vm->Some_0.heap == vm0.heap
            &&& final(m).proc_of(old(m).current).inner.proc_vm->Some_0.code_pages
                == vm0.code_pages
            &&& final(m).proc_of(old(m).current).inner.proc_data == old(m).proc_of(
                old(m).current,
            ).inner.proc_data
        }),
        final(m).current == old(m).current,
        final(m).status_of(old(m).current) == old(m).status_of(old(m).current),
{
    if protection_violation {
        return false;
    }
    let ghost m0 = *m;
    let cur = m.get_pid();
    let i = match m.find_proc(cur) {
        Some(i) => i,
        None => unreached(),
    };
    proof {
        lemma_idx_of_unique(m0.procs(), cur, i as int);
    }
    let mut vmslot: Option<ProcessVm> = None;
    let pr = &mut m.processes[i];
    core::mem::swap(&mut pr.inner.proc_vm, &mut vmslot);
    let r: bool = match &mut vmslot {
        Some(vm) => vm.handle_page_fault(addr, &mut m.frames),
        None => {
            unreached::<bool>()
        },
    };
    let pr2 = &mut m.processes[i];
    core::mem::swap(&mut pr2.inner.proc_vm, &mut vmslot);
    proof {
        let p = m0.procs()[i as int];
        let p2 = m.processes@[i as int];
        assert(m.processes@ =~= m0.procs().update(i as int, p2));
        lemma_update_same_pid(m0.procs(), i as int, p2);
        lemma_total_mapped_update(m0.procs(), i as int, p2);
        let vm0 = p.inner.proc_vm->Some_0;
        let vm2 = p2.inner.proc_vm->Some_0;
        assert(vm2.heap == vm0.heap && vm2.code_pages == vm0.code_pages);
        assert(crate::stack::window_base(vm2.stack.bottom) == crate::stack::window_base(
            vm0.stack.bottom,
        ));
        assert(m.frames.free + p2.owned_pages() == m0.frames.free + p.owned_pages());
        lemma_wf_after_vm_change(m0, *m, i as int);
        let (s2, f2, r2) = crate::stack::page_fault_spec(vm0.stack, m0.frames.free as int, addr);
        if !r2 {
            assert(p2 == p);
            assert(m.processes@ =~= m0.processes@);
        }
    }
    r
}


/// The only grounds on which a fork is refused: pids exhausted, more
/// children than stack slots, every slot from the probe start on taken,
/// page-table roots exhausted, or frames short of the parent's mapped pages.
pub open spec fn fork_refused(m: ProcessManager) -> bool {
    let parent = m.proc_of(m.current).inner;
    ||| m.pids.next == u16::MAX
    ||| parent.children@.len() > crate::stack::STACK_SLOTS
    ||| (forall|s: u64|
        m.current.0 + parent.children@.len() <= s <= crate::stack::STACK_SLOTS
            ==> #[trigger] m.slot_occupied(s))
    ||| m.next_root == u64::MAX
    ||| m.frames.free < parent.proc_vm->Some_0.mapped_pages()
}

/// A completed fork gave the current process of `m0` the fresh child `cp`:
/// the parent's saved return register holds the child pid, the child's
/// holds zero, both are runnable, and the caller's frame `c1` holds the
/// context of whichever process now runs.
pub open spec fn fork_spawned(
    m0: ProcessManager,
    m1: ProcessManager,
    c1: ProcessContext,
    cp: ProcessId,
) -> bool {
    &&& !m0.has_proc(cp)
    &&& m1.has_proc(cp)
    &&& cp.0 >= 2
    &&& m1.proc_of(cp).inner.parent == Some(m0.current)
    &&& m1.proc_of(cp).inner.context.rax == 0
    &&& m1.proc_of(cp).inner.ticks_passed == 0
    &&& m1.proc_of(cp).inner.children@.len() == 0
    &&& m1.proc_of(cp).inner.exit_code is None
    &&& m1.proc_of(m0.current).inner.context.rax == cp.0 as u64
    &&& m1.proc_of(m0.current).inner.children@.contains(cp)
    &&& (m1.status_of(cp) == ProgramStatus::Ready || m1.status_of(cp) == ProgramStatus::Running)
    &&& (m1.status_of(m0.current) == ProgramStatus::Ready || m1.status_of(m0.current)
        == ProgramStatus::Running)
    &&& m1.status_of(m1.current) == ProgramStatus::Running
    &&& c1 == m1.proc_of(m1.current).inner.context
}

/// What the fork syscall does: either some fresh child was spawned, or the
/// fork was refused on one of the listed grounds, nothing changed and the
/// caller's return register reads failure.
pub open spec fn fork_transition(
    m0: ProcessManager,
    m1: ProcessManager,
    c0: ProcessContext,
    c1: ProcessContext,
) -> bool {
    ||| (exists|cp: ProcessId| #[trigger] fork_spawned(m0, m1, c1, cp))
    ||| (fork_refused(m0) && m1.processes@ == m0.processes@ && m1.ready_queue == m0.ready_queue
        && m1.waiters == m0.waiters && m1.semaphores == m0.semaphores && m1.frames == m0.frames
        && m1.current == m0.current && c1 == (ProcessContext { rax: u64::MAX, ..c0 }))
}

/// Fork the current process: the child is a copy of the parent — same saved
/// context except a zeroed return register and a stack pointer moved to the
/// child's own slot, a copied address space, duplicated data, a fresh record
/// otherwise (no ticks, no children, no exit code) — and both end up Ready
/// (child queued first) before the CPU switches. The parent's saved return
/// register receives the child pid. `None` (with nothing changed but the pid
/// counter) when pids, a free stack slot, page-table roots or frames run
/// out, and only then.
#[verifier::rlimit(60)]
pub fn fork(m: &mut ProcessManager, context: &mut ProcessContext) -> (child: Option<ProcessId>)
    requires
        old(m).wf(),
        old(m).status_of(old(m).current) == ProgramStatus::Running,
    ensures
        final(m).wf(),
        match child {
            Some(cp) => {
                &&& !old(m).has_proc(cp)
                &&& final(m).has_proc(cp)
                &&& cp.0 >= 2
                &&& final(m).proc_of(cp).inner.parent == Some(old(m).current)
                &&& final(m).proc_of(cp).inner.context.rax == 0
                &&& final(m).proc_of(cp).inner.name@ == old(m).proc_of(
                    old(m).current,
                ).inner.name@
                &&& final(m).proc_of(cp).inner.ticks_passed == 0
                &&& final(m).proc_of(cp).inner.children@.len() == 0
                &&& final(m).proc_of(cp).inner.exit_code is None
                &&& final(m).proc_of(old(m).current).inner.context.rax == cp.0 as u64
                &&& final(m).proc_of(old(m).current).inner.children@.contains(cp)
                &&& (final(m).status_of(cp) == ProgramStatus::Ready || final(m).status_of(cp)
                    == ProgramStatus::Running)
                &&& (final(m).status_of(old(m).current) == ProgramStatus::Ready
                    || final(m).status_of(old(m).current) == ProgramStatus::Running)
                &&& final(m).status_of(final(m).current) == ProgramStatus::Running
                &&& *final(context) == final(m).proc_of(final(m).current).inner.context
            },
            None => {
                &&& fork_refused(*old(m))
                &&& final(m).processes@ == old(m).processes@
                &&& final(m).ready_queue == old(m).ready_queue
                &&& final(m).waiters == old(m).waiters
                &&& final(m).semaphores == old(m).semaphores
                &&& final(m).frames == old(m).frames
                &&& final(m).current == old(m).current
                &&& *final(context) == *old(context)
            },
        },
{
    let ghost m0 = *m;
    let cur = m.get_pid();
    let child_pid = match m.pids.fresh() {
        Some(p) => p,
        None => {
            return None;
        },
    };
    let i = match m.find_proc(cur) {
        Some(i) => i,
        None => unreached(),
    };
    proof {
        lemma_idx_of_unique(m0.procs(), cur, i as int);
    }
    // probe downward (higher slot numbers) from the parent's pid plus its
    // child count for a free stack slot
    let nchildren = m.processes[i].inner.children.len();
    if nchildren as u64 > crate::stack::STACK_SLOTS {
        return None;
    }
    let k0: u64 = (m.processes[i].pid.0 as u64) + (nchildren as u64);
    proof {
        assert(m0.proc_of(m0.current).inner.children@.len() == nchildren);
    }
    let mut k: u64 = k0;
    let mut found = false;
    while k <= crate::stack::STACK_SLOTS && !found
        invariant
            m.processes@ == m0.processes@,
            m.ready_queue == m0.ready_queue,
            m.waiters == m0.waiters,
            m.semaphores == m0.semaphores,
            m.frames == m0.frames,
            m.current == m0.current,
            1 <= k,
            k0 <= k,
            !found ==> forall|s: u64| k0 <= s < k ==> #[trigger] m0.slot_occupied(s),
            found ==> 1 <= k <= crate::stack::STACK_SLOTS && !(exists|x: int|
                0 <= x < m.procs().len() && ((#[trigger] m.procs()[x]).inner.proc_vm
                    matches Some(_)) && crate::stack::window_base(
                    m.procs()[x].inner.proc_vm->Some_0.stack.bottom,
                ) == crate::stack::slot_base(k as u64)),
        decreases crate::stack::STACK_SLOTS - k + (if found { 0int } else { 1int }),
    {
        proof {
            assert(k * crate::stack::STACK_MAX_SIZE <= crate::stack::STACK_MAX) by (nonlinear_arith)
                requires
                    1 <= k <= crate::stack::STACK_SLOTS,
            ;
            assert(crate::stack::slot_base(k) == crate::stack::STACK_MAX - k
                * crate::stack::STACK_MAX_SIZE);
        }
        if !m.slot_taken(crate::stack::STACK_MAX - k * crate::stack::STACK_MAX_SIZE) {
            found = true;
        } else {
            k = k + 1;
        }
    }
    if !found {
        proof {
            assert(fork_refused(m0)) by {
                assert forall|s: u64|
                    m0.current.0 + m0.proc_of(m0.current).inner.children@.len() <= s
                        <= crate::stack::STACK_SLOTS implies #[trigger] m0.slot_occupied(s) by {
                    assert(k0 <= s < k);
                }
            }
        }
        return None;
    }
    // copy the address space into the chosen slot
    let root = m.next_root;
    if root == u64::MAX {
        return None;
    }
    m.next_root = root + 1;
    proof {
        assert forall|x: int| 0 <= x < m0.procs().len() implies (#[trigger] m0.procs()[
            x
        ]).owned_pages() >= 0 by {
            crate::manager::lemma_owned_pages_nonneg(m0.procs()[x]);
        }
        crate::manager::lemma_total_mapped_bound(m0.procs(), i as int);
    }
    let mut vmslot: Option<ProcessVm> = None;
    let pr0 = &mut m.processes[i];
    core::mem::swap(&mut pr0.inner.proc_vm, &mut vmslot);
    let child_vm_opt = match &vmslot {
        Some(vm) => vm.fork(PageTableContext::new(root), &mut m.frames, k),
        None => unreached(),
    };
    let pr1 = &mut m.processes[i];
    core::mem::swap(&mut pr1.inner.proc_vm, &mut vmslot);
    proof {
        assert(m.processes@ =~= m0.processes@);
    }
    let child_vm = match child_vm_opt {
        Some(vm) => vm,
        None => {
            return None;
        },
    };
    // duplicate the data and build the child's frame: return register zero,
    // stack pointer rebased into the child's slot
    let child_data = match &m.processes[i].inner.proc_data {
        Some(d) => d.duplicate(),
        None => unreached(),
    };
    let child_name = m.processes[i].inner.name.clone();
    let child_rsp = (crate::stack::STACK_MAX - k * crate::stack::STACK_MAX_SIZE) + (
    context.stack_top() % crate::stack::STACK_MAX_SIZE);
    let mut child_ctx = *context;
    child_ctx.set_rax(0);
    child_ctx.update_stack_frame(child_rsp);
    // save the parent: context with the child pid as return value, one more
    // child, Ready
    let ghost procs_before = m.procs();
    let pr = &mut m.processes[i];
    let inner = pr.write();
    if inner.ticks_passed < u64::MAX {
        inner.tick();
    }
    inner.save(context);
    inner.context().set_rax(child_pid.0 as u64);
    inner.add_child(child_pid);
    proof {
        assert(m.processes@ =~= procs_before.update(i as int, m.processes@[i as int]));
    }
    let child_proc = Process {
        pid: child_pid,
        inner: ProcessInner {
            name: child_name,
            parent: Some(cur),
            children: Vec::new(),
            ticks_passed: 0,
            status: ProgramStatus::Ready,
            exit_code: None,
            context: child_ctx,
            proc_data: Some(child_data),
            proc_vm: Some(child_vm),
        },
    };
    m.processes.push(child_proc);
    m.ready_queue.push(child_pid);
    m.ready_queue.push(cur);
    let ghost m1 = *m;
    proof {
        assert(!has_pid(m0.procs(), child_pid)) by {
            if has_pid(m0.procs(), child_pid) {
                let x = choose|x: int|
                    0 <= x < m0.procs().len() && (#[trigger] m0.procs()[x]).pid == child_pid;
                assert(m0.procs()[x].pid.0 < m0.pids.next);
            }
        }
        assert(m1.processes@ == m0.procs().update(i as int, m1.processes@[i as int]).push(
            m1.processes@.last(),
        ));
        crate::manager::lemma_wf_after_fork(m0, m1, child_pid);
        assert(m1.ready_queue@.len() > 0);
        assert(m1.ready_queue@[0] == (if m0.ready_queue@.len() > 0 {
            m0.ready_queue@[0]
        } else {
            child_pid
        }));
    }
    let _next = m.switch_next(context);
    proof {
        let m2 = *m;
        lemma_wf_after_pop(m1, m2);
        let h = m1.ready_queue@[0];
        assert(m1.proc_of(child_pid) == m1.processes@.last());
        assert(m1.proc_of(cur) == m1.processes@[i as int]);
        let hi = idx_of(m1.procs(), h);
        assert(m2.proc_of(h).inner == (ProcessInner {
            status: ProgramStatus::Running,
            ..m1.procs()[hi].inner
        })) by {
            lemma_idx_of_unique(m2.procs(), h, hi);
        }
        assert(m1.procs()[hi] == m1.proc_of(h));
        if h == child_pid {
            assert(m2.proc_of(cur) == m1.proc_of(cur));
            assert(m2.proc_of(child_pid).inner == (ProcessInner {
                status: ProgramStatus::Running,
                ..m1.proc_of(child_pid).inner
            }));
        } else if h == cur {
            assert(m2.proc_of(child_pid) == m1.proc_of(child_pid));
        } else {
            assert(m2.proc_of(cur) == m1.proc_of(cur));
            assert(m2.proc_of(child_pid) == m1.proc_of(child_pid));
        }
        assert(m2.has_proc(child_pid));
        assert(m1.processes@[i as int].inner.children@.last() == child_pid);
        assert(m2.current == h && m2.status_of(h) == ProgramStatus::Running);
        assert(*context == m2.proc_of(h).inner.context);
    }
    Some(child_pid)
}


/// Law: fork-exit wake. When a parent is blocked in `WaitPid` on a child (it
/// stands in the waiters map as `(parent, child)`), and the child — then
/// current — exits with code `k`, the parent's saved return register holds
/// `k` and the parent is runnable again. The hypotheses are exactly what
/// `wait_pid` ensures for the parent and what `exit` ensures for the child.
pub proof fn lemma_fork_exit_wake(
    m1: ProcessManager,
    m2: ProcessManager,
    parent: ProcessId,
    child: ProcessId,
    k: isize,
)
    requires
        m1.waiters@.contains((parent, child)),
        m1.status_of(parent) == ProgramStatus::Blocked,
        m1.current == child,
        waiters_woken(m1, m2, child, k),
    ensures
        m2.proc_of(parent).inner.context.rax == k as u64,
        m2.status_of(parent) == ProgramStatus::Ready || m2.status_of(parent)
            == ProgramStatus::Running,
{
    let x = choose|x: int| 0 <= x < m1.waiters@.len() && m1.waiters@[x] == (parent, child);
    assert(m1.waiters@[x].1 == child);
    assert(m1.waiters@[x].0 == parent);
}

} // verus!
