//! The syscall service routines that compute over the process subsystem;
//! argument decoding and user-pointer access stay with the caller.

use vstd::prelude::*;

use crate::context::ProcessContext;
use crate::manager::AppEntry;
use crate::manager::ProcessManager;
use crate::pid::ProcessId;
use crate::process::ProgramStatus;
use crate::procs;
use crate::runtime::UefiRuntime;

verus! {

/// Current pid.
pub fn sys_get_pid(m: &ProcessManager) -> (r: u16)
    ensures
        r == m.current.0,
{
    m.get_pid().0
}

/// Seconds since midnight, from the firmware clock.
pub fn sys_time(rt: &UefiRuntime) -> (r: u64)
    ensures
        r == rt.time.hour * 3600 + rt.time.minute * 60 + rt.time.second,
{
    let time = rt.get_time();
    (time.hour as u64) * 3600 + (time.minute as u64) * 60 + (time.second as u64)
}

/// Fork the current process; the full transition is the scheduler-level
/// fork's, restated here: the parent's saved return register receives the
/// child pid, the child's holds zero, both are runnable, and a refusal has
/// one of the scheduler's listed grounds.
pub fn sys_fork(m: &mut ProcessManager, context: &mut ProcessContext) -> (child: Option<
    ProcessId,
>)
    requires
        old(m).wf(),
        old(m).status_of(old(m).current) == ProgramStatus::Running,
    ensures
        final(m).wf(),
        match child {
            Some(cp) => {
                &&& !old(m).has_proc(cp)
                &&& final(m).has_proc(cp)
                &&& cp.0 >= 2
                &&& final(m).proc_of(cp).inner.parent == Some(old(m).current)
                &&& final(m).proc_of(cp).inner.context.rax == 0
                &&& final(m).proc_of(cp).inner.ticks_passed == 0
                &&& final(m).proc_of(cp).inner.children@.len() == 0
                &&& final(m).proc_of(cp).inner.exit_code is None
                &&& final(m).proc_of(old(m).current).inner.context.rax == cp.0 as u64
                &&& final(m).proc_of(old(m).current).inner.children@.contains(cp)
                &&& (final(m).status_of(cp) == ProgramStatus::Ready || final(m).status_of(cp)
                    == ProgramStatus::Running)
                &&& (final(m).status_of(old(m).current) == ProgramStatus::Ready
                    || final(m).status_of(old(m).current) == ProgramStatus::Running)
                &&& final(m).status_of(final(m).current) == ProgramStatus::Running
                &&& *final(context) == final(m).proc_of(final(m).current).inner.context
            },
            None => {
                &&& procs::fork_refused(*old(m))
                &&& final(m).processes@ == old(m).processes@
                &&& final(m).ready_queue == old(m).ready_queue
                &&& final(m).waiters == old(m).waiters
                &&& final(m).semaphores == old(m).semaphores
                &&& final(m).frames == old(m).frames
                &&& final(m).current == old(m).current
                &&& *final(context) == *old(context)
            },
        },
{
    procs::fork(m, context)
}

/// The names in the boot-time app table, for the caller to print.
pub fn sys_list_app(m: &ProcessManager) -> (r: Vec<String>)
    ensures
        r@.len() == m.app_list@.len(),
        forall|i: int| 0 <= i < r@.len() ==> (#[trigger] r@[i])@ == m.app_list@[i].name@,
{
    let mut names: Vec<String> = Vec::new();
    let mut i: usize = 0;
    let apps = m.app_list();
    while i < apps.len()
        invariant
            apps == &m.app_list,
            i <= m.app_list@.len(),
            names@.len() == i,
            forall|j: int| 0 <= j < i ==> (#[trigger] names@[j])@ == m.app_list@[j].name@,
        decreases m.app_list@.len() - i,
    {
        names.push(apps[i].name.clone());
        i = i + 1;
    }
    names
}

/// Every process's pid and status, for the caller to print as a table.
pub fn sys_list_process(m: &ProcessManager) -> (r: Vec<(u16, ProgramStatus)>)
    ensures
        r@.len() == m.procs().len(),
        forall|i: int|
            0 <= i < r@.len() ==> (#[trigger] r@[i]) == (
                m.procs()[i].pid.0,
                m.procs()[i].inner.status,
            ),
{
    let mut out: Vec<(u16, ProgramStatus)> = Vec::new();
    let mut i: usize = 0;
    while i < m.processes.len()
        invariant
            i <= m.procs().len(),
            out@.len() == i,
            forall|j: int|
                0 <= j < i ==> (#[trigger] out@[j]) == (
                    m.procs()[j].pid.0,
                    m.procs()[j].inner.status,
                ),
        decreases m.procs().len() - i,
    {
        let p = &m.processes[i];
        out.push((p.pid.0, p.read().status()));
        i = i + 1;
    }
    out
}

/// Whether `pid` names a process that has not exited.
pub fn still_alive(m: &ProcessManager, pid: ProcessId) -> (r: bool)
    requires
        m.pids_wf(),
    ensures
        r == (m.has_proc(pid) && m.status_of(pid) != ProgramStatus::Dead),
{
    m.is_proc_alive(&pid)
}

/// Pid of the current process (free-function form).
pub fn get_pid(m: &ProcessManager) -> (r: ProcessId)
    ensures
        r == m.current,
{
    m.get_pid()
}

} // verus!
