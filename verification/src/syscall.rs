//! The syscall dispatcher: the register-packed call number and arguments are
//! decoded into a typed call and routed to the service routines.
//!
//! Calls that the kernel model completes on its own (process lifecycle,
//! semaphores, the break, the clock) are handled here and answer through the
//! caller's return register. Calls that dereference user pointers or reach
//! the filesystem and console come back as a typed request: the unverified
//! side resolves the memory or device access and calls the corresponding
//! service with plain values.

use vstd::prelude::*;

use crate::context::ProcessContext;
use crate::manager::ProcessManager;
use crate::pid::ProcessId;
use crate::process::ProgramStatus;
use crate::procs;
use crate::runtime::UefiRuntime;
use crate::semaphore::SemModel;
use crate::semaphore::sem_signal_spec;
use crate::semaphore::sem_wait_spec;
use crate::semaphore::spec_get;
use crate::service;

verus! {

/// The syscall a call number denotes.
#[derive(Clone, Copy, PartialEq, Eq, Structural, Debug)]
pub enum Syscall {
    Read,
    Write,
    GetPid,
    Brk,
    Spawn,
    Exit,
    WaitPid,
    Open,
    Close,
    Stat,
    ListApp,
    ListDir,
    Allocate,
    Deallocate,
    PrintInfo,
    Time,
    Fork,
    Sem,
    Unknown,
}

/// The call numbers of the syscall ABI, in order from zero.
pub open spec fn spec_syscall_of(n: u64) -> Syscall {
    if n == 0 {
        Syscall::Read
    } else if n == 1 {
        Syscall::Write
    } else if n == 2 {
        Syscall::GetPid
    } else if n == 3 {
        Syscall::Brk
    } else if n == 4 {
        Syscall::Spawn
    } else if n == 5 {
        Syscall::Exit
    } else if n == 6 {
        Syscall::WaitPid
    } else if n == 7 {
        Syscall::Open
    } else if n == 8 {
        Syscall::Close
    } else if n == 9 {
        Syscall::Stat
    } else if n == 10 {
        Syscall::ListApp
    } else if n == 11 {
        Syscall::ListDir
    } else if n == 12 {
        Syscall::Allocate
    } else if n == 13 {
        Syscall::Deallocate
    } else if n == 14 {
        Syscall::PrintInfo
    } else if n == 15 {
        Syscall::Time
    } else if n == 16 {
        Syscall::Fork
    } else if n == 17 {
        Syscall::Sem
    } else {
        Syscall::Unknown
    }
}

impl Syscall {
    /// Decode a call number.
    pub fn from(n: u64) -> (r: Syscall)
        ensures
            r == spec_syscall_of(n),
    {
        if n == 0 {
            Syscall::Read
        } else if n == 1 {
            Syscall::Write
        } else if n == 2 {
            Syscall::GetPid
        } else if n == 3 {
            Syscall::Brk
        } else if n == 4 {
            Syscall::Spawn
        } else if n == 5 {
            Syscall::Exit
        } else if n == 6 {
            Syscall::WaitPid
        } else if n == 7 {
            Syscall::Open
        } else if n == 8 {
            Syscall::Close
        } else if n == 9 {
            Syscall::Stat
        } else if n == 10 {
            Syscall::ListApp
        } else if n == 11 {
            Syscall::ListDir
        } else if n == 12 {
            Syscall::Allocate
        } else if n == 13 {
            Syscall::Deallocate
        } else if n == 14 {
            Syscall::PrintInfo
        } else if n == 15 {
            Syscall::Time
        } else if n == 16 {
            Syscall::Fork
        } else if n == 17 {
            Syscall::Sem
        } else {
            Syscall::Unknown
        }
    }
}

/// A decoded syscall with its three raw arguments.
#[derive(Clone, Copy, PartialEq, Eq, Structural, Debug)]
pub struct SyscallArgs {
    pub syscall: Syscall,
    pub arg0: u64,
    pub arg1: u64,
    pub arg2: u64,
}

impl SyscallArgs {
    pub fn new(syscall: Syscall, arg0: u64, arg1: u64, arg2: u64) -> (r: SyscallArgs)
        ensures
            r == (SyscallArgs { syscall, arg0, arg1, arg2 }),
    {
        SyscallArgs { syscall, arg0, arg1, arg2 }
    }
}

/// What the dispatcher asks of the unverified side: resolve user memory, the
/// filesystem, the console or the user allocator, then call the matching
/// service with plain values.
#[derive(Clone, Copy, PartialEq, Eq, Structural, Debug)]
pub enum SyscallRequest {
    /// The call was completed by the kernel model.
    Handled,
    /// Read `len` bytes into user memory at `ptr` from descriptor `fd`.
    ReadInto { fd: u8, ptr: u64, len: u64 },
    /// Write `len` bytes from user memory at `ptr` to descriptor `fd`.
    WriteFrom { fd: u8, ptr: u64, len: u64 },
    /// Spawn the program named by the path at `(ptr, len)`.
    SpawnPath { ptr: u64, len: u64 },
    /// Open the file named by the path at `(ptr, len)`.
    OpenPath { ptr: u64, len: u64 },
    /// Close descriptor `fd` in the current process's table.
    CloseFd { fd: u8 },
    /// Print the process table.
    Stat,
    /// Print the boot-time app table.
    ListApp,
    /// List the directory named by the path at `(ptr, len)`.
    ListDir { ptr: u64, len: u64 },
    /// Serve a user-heap allocation described at `ptr`.
    Allocate { ptr: u64 },
    /// Release a user-heap allocation.
    Deallocate { ptr: u64, layout_ptr: u64 },
    /// Print one process's details.
    PrintInfo { pid: u16 },
    /// An unknown call number; nothing was done.
    Unknown,
}

/// Route one syscall. The saved frame carries the call number in the return
/// register and the arguments in the three argument registers, as the ABI
/// fixes them.
pub fn dispatcher(m: &mut ProcessManager, rt: &UefiRuntime, context: &mut ProcessContext) -> (r:
    SyscallRequest)
    requires
        old(m).wf(),
        old(m).status_of(old(m).current) == ProgramStatus::Running,
    ensures
        final(m).wf(),
        ({
            let call = spec_syscall_of(old(context).rax);
            &&& (call == Syscall::GetPid ==> r == SyscallRequest::Handled && *final(context) == (
            ProcessContext { rax: old(m).current.0 as u64, ..*old(context) }))
            &&& (call == Syscall::Time ==> r == SyscallRequest::Handled && *final(context) == (
            ProcessContext {
                rax: (rt.time.hour * 3600 + rt.time.minute * 60 + rt.time.second) as u64,
                ..*old(context)
            }))
            &&& (call == Syscall::Read ==> r == (SyscallRequest::ReadInto {
                fd: (old(context).rdi & 0xff) as u8,
                ptr: old(context).rsi,
                len: old(context).rdx,
            }))
            &&& (call == Syscall::Write ==> r == (SyscallRequest::WriteFrom {
                fd: (old(context).rdi & 0xff) as u8,
                ptr: old(context).rsi,
                len: old(context).rdx,
            }))
            &&& (call == Syscall::Spawn ==> r == (SyscallRequest::SpawnPath {
                ptr: old(context).rdi,
                len: old(context).rsi,
            }))
            &&& (call == Syscall::Open ==> r == (SyscallRequest::OpenPath {
                ptr: old(context).rdi,
                len: old(context).rsi,
            }))
            &&& (call == Syscall::Close ==> r == (SyscallRequest::CloseFd {
                fd: (old(context).rdi & 0xff) as u8,
            }))
            &&& (call == Syscall::Stat ==> r == SyscallRequest::Stat)
            &&& (call == Syscall::ListApp ==> r == SyscallRequest::ListApp)
            &&& (call == Syscall::ListDir ==> r == (SyscallRequest::ListDir {
                ptr: old(context).rdi,
                len: old(context).rsi,
            }))
            &&& (call == Syscall::Allocate ==> r == (SyscallRequest::Allocate {
                ptr: old(context).rdi,
            }))
            &&& (call == Syscall::Deallocate ==> r == (SyscallRequest::Deallocate {
                ptr: old(context).rdi,
                layout_ptr: old(context).rsi,
            }))
            &&& (call == Syscall::PrintInfo ==> r == (SyscallRequest::PrintInfo {
                pid: (old(context).rdi & 0xffff) as u16,
            }))
            &&& (call == Syscall::Brk ==> r == SyscallRequest::Handled && ({
                let addr = if old(context).rdi == 0 {
                    None
                } else {
                    Some(old(context).rdi)
                };
                let vm0 = old(m).proc_of(old(m).current).inner.proc_vm->Some_0;
                let (h2, f2, r2) = crate::heap::brk_spec(
                    vm0.heap,
                    old(m).frames.free as int,
                    addr,
                );
                &&& (r2 is Some ==> final(m).proc_of(
                    old(m).current,
                ).inner.proc_vm->Some_0.heap == h2 && final(m).frames.free == f2
                    && *final(context) == (ProcessContext {
                    rax: ((r2->Some_0 as isize) as u64),
                    ..*old(context)
                }))
                &&& (r2 is None ==> final(m).processes@ == old(m).processes@ && final(m).frames
                    == old(m).frames && *final(context) == (ProcessContext {
                    rax: ((-1isize) as u64),
                    ..*old(context)
                }))
            }))
            &&& (call == Syscall::Exit ==> r == SyscallRequest::Handled && ({
                let ret = old(context).rdi as isize;
                &&& final(m).status_of(old(m).current) == ProgramStatus::Dead
                &&& final(m).proc_of(old(m).current).inner.exit_code == Some(ret)
                &&& procs::waiters_woken(*old(m), *final(m), old(m).current, ret)
                &&& (old(m).ready_queue@.len() > 0 ==> final(m).current == old(
                    m,
                ).ready_queue@[0] && final(m).status_of(final(m).current)
                    == ProgramStatus::Running && *final(context) == final(m).proc_of(
                    final(m).current,
                ).inner.context)
            }))
            &&& (call == Syscall::WaitPid ==> r == SyscallRequest::Handled && ({
                let pid = ProcessId((old(context).rdi & 0xffff) as u16);
                &&& (old(m).has_proc(pid) && old(m).status_of(pid) != ProgramStatus::Dead
                    ==> ({
                    &&& final(m).status_of(old(m).current) == ProgramStatus::Blocked
                    &&& final(m).waiters@.contains((old(m).current, pid))
                    &&& final(m).proc_of(old(m).current).inner.context == *old(context)
                    &&& (old(m).ready_queue@.len() > 0 ==> final(m).current == old(
                        m,
                    ).ready_queue@[0] && final(m).status_of(final(m).current)
                        == ProgramStatus::Running && *final(context) == final(m).proc_of(
                        final(m).current,
                    ).inner.context)
                }))
                &&& (!(old(m).has_proc(pid) && old(m).status_of(pid) != ProgramStatus::Dead)
                    ==> *final(m) == *old(m) && *final(context) == (ProcessContext {
                    rax: (if old(m).has_proc(pid) && old(m).proc_of(pid).inner.exit_code
                        is Some {
                        old(m).proc_of(pid).inner.exit_code->Some_0 as u64
                    } else {
                        u64::MAX
                    }),
                    ..*old(context)
                }))
            }))
            &&& (call == Syscall::Fork ==> r == SyscallRequest::Handled && procs::fork_transition(
                *old(m),
                *final(m),
                *old(context),
                *final(context),
            ))
            &&& (call == Syscall::Sem ==> r == SyscallRequest::Handled && ({
                let op = old(context).rdi;
                let key = (old(context).rsi & 0xffff_ffff) as u32;
                let value = old(context).rdx as usize;
                &&& (op == 0 ==> ({
                    &&& (spec_get(old(m).semaphores.sems@, key) is None ==> spec_get(
                        final(m).semaphores.sems@,
                        key,
                    ) == Some(
                        SemModel { count: value as int, waiters: Seq::<ProcessId>::empty() },
                    ) && *final(context) == (ProcessContext { rax: 0, ..*old(context) }))
                    &&& (spec_get(old(m).semaphores.sems@, key) is Some ==> final(m).semaphores
                        == old(m).semaphores && *final(context) == (ProcessContext {
                        rax: 1,
                        ..*old(context)
                    }))
                    &&& final(m).processes@ == old(m).processes@
                }))
                &&& (op == 1 ==> ({
                    &&& ((match spec_get(old(m).semaphores.sems@, key) {
                        Some(sm) => sm.waiters.len() == 0,
                        None => false,
                    }) ==> spec_get(final(m).semaphores.sems@, key) is None && *final(context)
                        == (ProcessContext { rax: 0, ..*old(context) }))
                    &&& (!(match spec_get(old(m).semaphores.sems@, key) {
                        Some(sm) => sm.waiters.len() == 0,
                        None => false,
                    }) ==> final(m).semaphores == old(m).semaphores && *final(context) == (
                    ProcessContext { rax: 1, ..*old(context) }))
                    &&& final(m).processes@ == old(m).processes@
                }))
                &&& (op == 2 ==> (match spec_get(old(m).semaphores.sems@, key) {
                    None => *final(context) == (ProcessContext { rax: 1, ..*old(context) })
                        && *final(m) == *old(m),
                    Some(sm) => {
                        let (sm2, w) = sem_signal_spec(sm);
                        &&& spec_get(final(m).semaphores.sems@, key) == Some(sm2)
                        &&& (w is WakeUp ==> ({
                            let p = w->WakeUp_0;
                            &&& final(m).status_of(p) == ProgramStatus::Ready
                            &&& final(m).proc_of(p).inner.context == old(m).proc_of(
                                p,
                            ).inner.context
                            &&& final(m).ready_queue@.contains(p)
                            &&& *final(context) == *old(context)
                        }))
                        &&& (w is Done ==> *final(context) == (ProcessContext {
                            rax: 0,
                            ..*old(context)
                        }))
                    },
                }))
                &&& (op == 3 ==> (match spec_get(old(m).semaphores.sems@, key) {
                    None => *final(context) == (ProcessContext { rax: 1, ..*old(context) })
                        && *final(m) == *old(m),
                    Some(sm) => {
                        let (sm2, w) = sem_wait_spec(sm, old(m).current);
                        &&& spec_get(final(m).semaphores.sems@, key) == Some(sm2)
                        &&& (w is Done ==> *final(context) == (ProcessContext {
                            rax: 0,
                            ..*old(context)
                        }))
                        &&& (w is Block ==> ({
                            &&& final(m).status_of(old(m).current) == ProgramStatus::Blocked
                            &&& final(m).proc_of(old(m).current).inner.context == *old(context)
                            &&& sm2.waiters[sm2.waiters.len() - 1] == old(m).current
                        }))
                    },
                }))
                &&& (op > 3 ==> *final(m) == *old(m) && *final(context) == (ProcessContext {
                    rax: u64::MAX,
                    ..*old(context)
                }))
            }))
            &&& (call == Syscall::Unknown ==> r == SyscallRequest::Unknown && *final(m) == *old(
                m,
            ) && *final(context) == *old(context))
        }),
{
    let number = context.rax;
    let args = SyscallArgs::new(Syscall::from(number), context.rdi, context.rsi, context.rdx);
    match args.syscall {
        Syscall::Read => SyscallRequest::ReadInto {
            fd: (args.arg0 & 0xff) as u8,
            ptr: args.arg1,
            len: args.arg2,
        },
        Syscall::Write => SyscallRequest::WriteFrom {
            fd: (args.arg0 & 0xff) as u8,
            ptr: args.arg1,
            len: args.arg2,
        },
        Syscall::GetPid => {
            let pid = service::sys_get_pid(m);
            context.set_rax(pid as u64);
            SyscallRequest::Handled
        },
        Syscall::Brk => {
            let addr = if args.arg0 == 0 {
                None
            } else {
                Some(args.arg0)
            };
            let end = procs::brk(m, addr);
            context.set_rax(end as u64);
            SyscallRequest::Handled
        },
        Syscall::Spawn => SyscallRequest::SpawnPath { ptr: args.arg0, len: args.arg1 },
        Syscall::Exit => {
            procs::exit(m, args.arg0 as isize, context);
            SyscallRequest::Handled
        },
        Syscall::WaitPid => {
            procs::wait_pid(m, ProcessId((args.arg0 & 0xffff) as u16), context);
            SyscallRequest::Handled
        },
        Syscall::Open => SyscallRequest::OpenPath { ptr: args.arg0, len: args.arg1 },
        Syscall::Close => SyscallRequest::CloseFd { fd: (args.arg0 & 0xff) as u8 },
        Syscall::Stat => SyscallRequest::Stat,
        Syscall::ListApp => SyscallRequest::ListApp,
        Syscall::ListDir => SyscallRequest::ListDir { ptr: args.arg0, len: args.arg1 },
        Syscall::Allocate => SyscallRequest::Allocate { ptr: args.arg0 },
        Syscall::Deallocate => SyscallRequest::Deallocate {
            ptr: args.arg0,
            layout_ptr: args.arg1,
        },
        Syscall::PrintInfo => SyscallRequest::PrintInfo { pid: (args.arg0 & 0xffff) as u16 },
        Syscall::Time => {
            let seconds = service::sys_time(rt);
            context.set_rax(seconds);
            SyscallRequest::Handled
        },
        Syscall::Fork => {
            let child = service::sys_fork(m, context);
            if child.is_none() {
                context.set_rax(u64::MAX);
            }
            proof {
                if child is Some {
                    assert(procs::fork_spawned(*old(m), *m, *context, child->Some_0));
                }
            }
            SyscallRequest::Handled
        },
        Syscall::Sem => {
            match args.arg0 {
                0 => {
                    let r = procs::new_sem(m, (args.arg1 & 0xffff_ffff) as u32, args.arg2 as usize);
                    context.set_rax(r as u64);
                },
                1 => {
                    let r = procs::remove_sem(m, (args.arg1 & 0xffff_ffff) as u32);
                    context.set_rax(r as u64);
                },
                2 => {
                    procs::sem_signal(m, (args.arg1 & 0xffff_ffff) as u32, context);
                },
                3 => {
                    procs::sem_wait(m, (args.arg1 & 0xffff_ffff) as u32, context);
                },
                _ => {
                    context.set_rax(u64::MAX);
                },
            }
            SyscallRequest::Handled
        },
        Syscall::Unknown => SyscallRequest::Unknown,
    }
}

} // verus!
