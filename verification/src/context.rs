//! Saved register context of a process.
//!
//! Only the registers the process subsystem actually reads or writes are
//! modeled: the syscall argument registers, the return register `rax`, the
//! stack pointer and the instruction pointer. Saving and restoring copy the
//! whole frame.

use vstd::prelude::*;

verus! {

/// A saved register frame.
#[derive(Clone, Copy, PartialEq, Eq, Structural, Debug)]
pub struct ProcessContext {
    /// Return value register; also carries the syscall number on entry.
    pub rax: u64,
    /// First syscall argument.
    pub rdi: u64,
    /// Second syscall argument.
    pub rsi: u64,
    /// Third syscall argument.
    pub rdx: u64,
    /// Stack pointer.
    pub rsp: u64,
    /// Instruction pointer.
    pub rip: u64,
}

impl ProcessContext {
    /// An all-zero frame, as a fresh process record starts with.
    pub fn empty() -> (c: ProcessContext)
        ensures
            c == (ProcessContext { rax: 0, rdi: 0, rsi: 0, rdx: 0, rsp: 0, rip: 0 }),
    {
        ProcessContext { rax: 0, rdi: 0, rsi: 0, rdx: 0, rsp: 0, rip: 0 }
    }

    /// Write the return register.
    pub fn set_rax(&mut self, value: u64)
        ensures
            *final(self) == (ProcessContext { rax: value, ..*old(self) }),
    {
        self.rax = value;
    }

    /// Copy a caller-saved frame into this one.
    pub fn save(&mut self, from: &ProcessContext)
        ensures
            *final(self) == *from,
    {
        *self = *from;
    }

    /// Copy this saved frame back out to the caller's frame.
    pub fn restore(&self, to: &mut ProcessContext)
        ensures
            *final(to) == *self,
    {
        *to = *self;
    }

    /// The saved stack pointer.
    pub fn stack_top(&self) -> (r: u64)
        ensures
            r == self.rsp,
    {
        self.rsp
    }

    /// Prepare a frame for first entry: start at `entry` with the stack at
    /// `stack_top`.
    pub fn init_stack_frame(&mut self, entry: u64, stack_top: u64)
        ensures
            *final(self) == (ProcessContext { rip: entry, rsp: stack_top, ..*old(self) }),
    {
        self.rip = entry;
        self.rsp = stack_top;
    }

    /// Move the frame onto another stack, keeping everything else.
    pub fn update_stack_frame(&mut self, stack_top: u64)
        ensures
            *final(self) == (ProcessContext { rsp: stack_top, ..*old(self) }),
    {
        self.rsp = stack_top;
    }
}

} // verus!
