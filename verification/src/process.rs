//! One process: its identity, lifecycle state, saved context, address space
//! and data.
//!
//! On hardware a per-process reader/writer lock guards the inner record;
//! the kernel only touches it with interrupts disabled, so the model is the
//! plain record, and `read`/`write` hand out references.

use vstd::prelude::*;

use crate::context::ProcessContext;
use crate::data::ProcessData;
use crate::frames::FrameAllocator;
use crate::pid::ProcessId;
use crate::vm::ProcessVm;

verus! {

/// Lifecycle state of a process.
#[derive(Debug, Copy, Clone, Eq, PartialEq, Structural)]
pub enum ProgramStatus {
    Running,
    Ready,
    Blocked,
    Dead,
}

/// The mutable half of a process record.
pub struct ProcessInner {
    pub name: String,
    pub parent: Option<ProcessId>,
    pub children: Vec<ProcessId>,
    pub ticks_passed: u64,
    pub status: ProgramStatus,
    pub exit_code: Option<isize>,
    pub context: ProcessContext,
    pub proc_data: Option<ProcessData>,
    pub proc_vm: Option<ProcessVm>,
}

/// A process: its never-changing pid and the inner record.
pub struct Process {
    pub pid: ProcessId,
    pub inner: ProcessInner,
}

impl Process {
    /// Pages of physical memory this process holds through its mappings.
    pub open spec fn owned_pages(self) -> int {
        match self.inner.proc_vm {
            Some(vm) => vm.mapped_pages(),
            None => 0,
        }
    }

    pub fn pid(&self) -> (r: ProcessId)
        ensures
            r == self.pid,
    {
        self.pid
    }

    /// Borrow the inner record (on hardware: take the read lock).
    pub fn read(&self) -> (r: &ProcessInner)
        ensures
            r == &self.inner,
    {
        &self.inner
    }

    /// Borrow the inner record mutably (on hardware: take the write lock).
    pub fn write(&mut self) -> (r: &mut ProcessInner)
        ensures
            *r == old(self).inner,
            *final(self) == (Process { inner: *final(r), ..*old(self) }),
    {
        &mut self.inner
    }

    /// A fresh Ready process under `pid`.
    pub fn new(
        name: String,
        parent: Option<ProcessId>,
        proc_vm: ProcessVm,
        proc_data: ProcessData,
        pid: ProcessId,
    ) -> (p: Process)
        ensures
            p.pid == pid,
            p.inner.name == name,
            p.inner.parent == parent,
            p.inner.children@.len() == 0,
            p.inner.ticks_passed == 0,
            p.inner.status == ProgramStatus::Ready,
            p.inner.exit_code is None,
            p.inner.context == (ProcessContext { rax: 0, rdi: 0, rsi: 0, rdx: 0, rsp: 0, rip: 0 }),
            p.inner.proc_vm == Some(proc_vm),
            p.inner.proc_data == Some(proc_data),
    {
        Process {
            pid,
            inner: ProcessInner {
                name,
                parent,
                children: Vec::new(),
                ticks_passed: 0,
                status: ProgramStatus::Ready,
                exit_code: None,
                context: ProcessContext::empty(),
                proc_data: Some(proc_data),
                proc_vm: Some(proc_vm),
            },
        }
    }
}

impl ProcessInner {
    pub fn name(&self) -> (r: &String)
        ensures
            r == &self.name,
    {
        &self.name
    }

    /// One more timer tick charged to this process.
    pub fn tick(&mut self)
        requires
            old(self).ticks_passed < u64::MAX,
        ensures
            *final(self) == (ProcessInner {
                ticks_passed: (old(self).ticks_passed + 1) as u64,
                ..*old(self)
            }),
    {
        self.ticks_passed = self.ticks_passed + 1;
    }

    pub fn status(&self) -> (r: ProgramStatus)
        ensures
            r == self.status,
    {
        self.status
    }

    /// Mark Ready.
    pub fn pause(&mut self)
        ensures
            *final(self) == (ProcessInner { status: ProgramStatus::Ready, ..*old(self) }),
    {
        self.status = ProgramStatus::Ready;
    }

    /// Mark Running.
    pub fn resume(&mut self)
        ensures
            *final(self) == (ProcessInner { status: ProgramStatus::Running, ..*old(self) }),
    {
        self.status = ProgramStatus::Running;
    }

    /// Mark Blocked.
    pub fn block(&mut self)
        ensures
            *final(self) == (ProcessInner { status: ProgramStatus::Blocked, ..*old(self) }),
    {
        self.status = ProgramStatus::Blocked;
    }

    pub fn exit_code(&self) -> (r: Option<isize>)
        ensures
            r == self.exit_code,
    {
        self.exit_code
    }

    pub fn is_ready(&self) -> (r: bool)
        ensures
            r == (self.status == ProgramStatus::Ready),
    {
        match self.status {
            ProgramStatus::Ready => true,
            _ => false,
        }
    }

    /// The address space; only live processes have one.
    pub fn vm(&self) -> (r: &ProcessVm)
        requires
            self.proc_vm is Some,
        ensures
            Some(*r) == self.proc_vm,
    {
        match &self.proc_vm {
            Some(vm) => vm,
            None => unreached(),
        }
    }

    /// The saved register frame, mutably.
    pub fn context(&mut self) -> (r: &mut ProcessContext)
        ensures
            *r == old(self).context,
            *final(self) == (ProcessInner { context: *final(r), ..*old(self) }),
    {
        &mut self.context
    }

    /// Save the caller's frame and mark Ready; a Dead process ignores the
    /// save.
    pub fn save(&mut self, context: &ProcessContext)
        ensures
            old(self).status != ProgramStatus::Dead ==> *final(self) == (ProcessInner {
                context: *context,
                status: ProgramStatus::Ready,
                ..*old(self)
            }),
            old(self).status == ProgramStatus::Dead ==> *final(self) == *old(self),
    {
        match self.status {
            ProgramStatus::Dead => {},
            _ => {
                self.context.save(context);
                self.pause();
            },
        }
    }

    /// Mark Running and hand the saved frame back to the caller (on
    /// hardware this is also where the process's page table is loaded).
    pub fn restore(&mut self, context: &mut ProcessContext)
        ensures
            *final(self) == (ProcessInner { status: ProgramStatus::Running, ..*old(self) }),
            *final(context) == old(self).context,
    {
        self.resume();
        self.context.restore(context);
    }

    pub fn init_stack_frame(&mut self, entry: u64, stack_top: u64)
        ensures
            *final(self) == (ProcessInner {
                context: (ProcessContext { rip: entry, rsp: stack_top, ..old(self).context }),
                ..*old(self)
            }),
    {
        self.context.init_stack_frame(entry, stack_top);
    }

    pub fn parent(&self) -> (r: Option<ProcessId>)
        ensures
            r == self.parent,
    {
        self.parent
    }

    pub fn add_child(&mut self, child: ProcessId)
        ensures
            *final(self) == (ProcessInner { children: final(self).children, ..*old(self) }),
            final(self).children@ == old(self).children@.push(child),
    {
        self.children.push(child);
    }

    /// Record the exit code, mark Dead, and release the address space and
    /// data; the freed pages go back to the allocator.
    pub fn kill(&mut self, ret: isize, alloc: &mut FrameAllocator)
        requires
            old(self).proc_vm matches Some(vm) && vm.wf() && old(alloc).free + vm.mapped_pages()
                <= old(alloc).total,
        ensures
            *final(self) == (ProcessInner {
                exit_code: Some(ret),
                status: ProgramStatus::Dead,
                proc_vm: None,
                proc_data: None,
                ..*old(self)
            }),
            final(alloc).total == old(alloc).total,
            final(alloc).free == old(alloc).free + (match old(self).proc_vm {
                Some(vm) => vm.mapped_pages(),
                None => 0,
            }),
    {
        self.exit_code = Some(ret);
        self.status = ProgramStatus::Dead;
        match &mut self.proc_vm {
            Some(vm) => {
                vm.clean_up(alloc);
            },
            None => {},
        }
        self.proc_vm = None;
        self.proc_data = None;
    }
}

} // verus!
