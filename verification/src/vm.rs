//! The per-process virtual address space: a root page table, the user stack
//! slot, the `brk` heap, and the mapped code segment.
//!
//! Mappings are accounted as page counts charged against the frame
//! allocator; releasing the space gives every page back, which is what the
//! conservation law over the whole manager rests on.

use vstd::prelude::*;

use crate::frames::FrameAllocator;
use crate::heap::Heap;
use crate::stack::STACK_DEF_PAGE;
use crate::stack::STACK_SLOTS;
use crate::stack::Stack;
use crate::stack::page_fault_spec;
use crate::stack::slot_init_bottom;

verus! {

/// What the kernel reads of a loaded ELF image: its entry point and how many
/// pages its loadable segments occupy. The ELF loader collaborator produces
/// these from the raw bytes.
#[derive(Clone, Copy, PartialEq, Eq, Structural, Debug)]
pub struct ElfImage {
    pub entry: u64,
    pub pages: u64,
}

/// A root page table. `clone_l4` shares the root (the kernel half stays
/// common); `fork` gives the child its own root whose user half is a copy.
#[derive(Clone, Copy, PartialEq, Eq, Structural, Debug)]
pub struct PageTableContext {
    pub root: u64,
}

impl PageTableContext {
    pub fn new(root: u64) -> (pt: PageTableContext)
        ensures
            pt.root == root,
    {
        PageTableContext { root }
    }

    /// Another view of the same root.
    pub fn clone_l4(&self) -> (pt: PageTableContext)
        ensures
            pt == *self,
    {
        PageTableContext { root: self.root }
    }

    /// A child table under its own root.
    pub fn fork(&self, new_root: u64) -> (pt: PageTableContext)
        ensures
            pt.root == new_root,
    {
        PageTableContext { root: new_root }
    }
}

/// A process's whole address-space state.
pub struct ProcessVm {
    pub page_table: PageTableContext,
    pub stack: Stack,
    pub heap: Heap,
    /// Pages mapped for the loaded image (for the kernel process: the boot
    /// page set).
    pub code_pages: u64,
}

impl ProcessVm {
    /// Pages of physical memory this address space holds.
    pub open spec fn mapped_pages(self) -> int {
        self.stack.usage + self.heap.mapped_pages() + self.code_pages
    }

    pub open spec fn wf(self) -> bool {
        &&& self.stack.wf()
        &&& self.heap.wf()
    }

    /// A fresh, empty address space under the given page table.
    pub fn new(page_table: PageTableContext) -> (vm: ProcessVm)
        ensures
            vm.page_table == page_table,
            vm.stack.usage == 0,
            vm.heap.wf(),
            vm.heap.spec_end() == crate::heap::HEAP_START,
            vm.code_pages == 0,
    {
        ProcessVm { page_table, stack: Stack::empty(), heap: Heap::empty(), code_pages: 0 }
    }

    /// The kernel's own address space: the boot-supplied kernel page set and
    /// the pre-mapped kernel stack.
    pub fn init_kernel_vm(self, kernel_pages: u64) -> (vm: ProcessVm)
        ensures
            vm.page_table == self.page_table,
            vm.stack.bottom == crate::stack::KSTACK_INIT_BOT,
            vm.stack.usage == crate::stack::KSTACK_DEF_PAGE,
            vm.heap.wf(),
            vm.heap.mapped_pages() == 0,
            vm.code_pages == kernel_pages,
            vm.wf(),
            vm.mapped_pages() == crate::stack::KSTACK_DEF_PAGE + kernel_pages,
    {
        ProcessVm {
            page_table: self.page_table,
            stack: Stack::kstack(),
            heap: Heap::empty(),
            code_pages: kernel_pages,
        }
    }

    /// Map the image's loadable segments, charging the frame allocator;
    /// reports failure (and changes nothing) when frames run short.
    pub fn load_elf(&mut self, elf: &ElfImage, alloc: &mut FrameAllocator) -> (ok: bool)
        requires
            old(self).code_pages == 0,
        ensures
            final(alloc).total == old(alloc).total,
            ok == (old(alloc).free >= elf.pages),
            ok ==> *final(self) == (ProcessVm { code_pages: elf.pages, ..*old(self) })
                && final(alloc).free == old(alloc).free - elf.pages,
            !ok ==> *final(self) == *old(self) && *final(alloc) == *old(alloc),
    {
        if alloc.allocate(elf.pages) {
            self.code_pages = elf.pages;
            true
        } else {
            false
        }
    }

    /// Map the initial stack page at `pid`'s slot; returns the stack top.
    pub fn init_stack(&mut self, alloc: &mut FrameAllocator, pid: u16) -> (top: u64)
        requires
            old(self).stack.usage == 0,
            1 <= pid <= STACK_SLOTS,
            old(alloc).free >= STACK_DEF_PAGE,
        ensures
            final(self).stack.bottom == slot_init_bottom(pid),
            final(self).stack.usage == STACK_DEF_PAGE,
            final(self).stack.wf(),
            top == slot_init_bottom(pid) + crate::stack::STACK_DEF_SIZE - 8,
            final(self).heap == old(self).heap,
            final(self).code_pages == old(self).code_pages,
            final(self).page_table == old(self).page_table,
            final(alloc).free == old(alloc).free - STACK_DEF_PAGE,
            final(alloc).total == old(alloc).total,
    {
        self.stack.init(alloc, pid)
    }

    /// Resolve a page fault by growing the stack; see the stack's fault
    /// transition for when that succeeds.
    pub fn handle_page_fault(&mut self, addr: u64, alloc: &mut FrameAllocator) -> (r: bool)
        requires
            old(self).stack.wf(),
        ensures
            final(self).stack.wf(),
            final(alloc).total == old(alloc).total,
            ({
                let (s2, f2, r2) = page_fault_spec(
                    old(self).stack,
                    old(alloc).free as int,
                    addr,
                );
                final(self).stack == s2 && final(alloc).free == f2 && r == r2
            }),
            final(self).heap == old(self).heap,
            final(self).code_pages == old(self).code_pages,
            final(self).page_table == old(self).page_table,
    {
        self.stack.handle_page_fault(addr, alloc)
    }

    /// Copy this address space for a child: the child gets its own stack
    /// copy in `slot`, its own heap pages, and its own copy of the code
    /// segment, all charged to the frame allocator. Fails (releasing any
    /// partial charge) when frames run short.
    pub fn fork(
        &self,
        child_pt: PageTableContext,
        alloc: &mut FrameAllocator,
        slot: u64,
    ) -> (r: Option<ProcessVm>)
        requires
            self.wf(),
            1 <= slot <= STACK_SLOTS,
            old(alloc).free + self.mapped_pages() <= old(alloc).total,
        ensures
            final(alloc).total == old(alloc).total,
            r is Some <==> old(alloc).free >= self.mapped_pages(),
            r is Some ==> {
                let c = r->Some_0;
                &&& c.wf()
                &&& c.page_table == child_pt
                &&& c.stack.usage == self.stack.usage
                &&& crate::stack::window_base(c.stack.bottom) == crate::stack::slot_base(slot)
                &&& c.stack.bottom == crate::stack::slot_base(slot) + (self.stack.bottom
                    - crate::stack::window_base(self.stack.bottom))
                &&& c.heap == self.heap
                &&& c.code_pages == self.code_pages
                &&& c.mapped_pages() == self.mapped_pages()
                &&& final(alloc).free == old(alloc).free - self.mapped_pages()
            },
            r is None ==> *final(alloc) == *old(alloc),
    {
        let heap_pages = self.heap.mapped_pages_count();
        let child_stack = match self.stack.fork(alloc, slot) {
            Some(s) => s,
            None => {
                return None;
            },
        };
        if !alloc.allocate(heap_pages) {
            alloc.release(self.stack.usage());
            return None;
        }
        if !alloc.allocate(self.code_pages) {
            alloc.release(self.stack.usage());
            alloc.release(heap_pages);
            return None;
        }
        Some(
            ProcessVm {
                page_table: child_pt,
                stack: child_stack,
                heap: self.heap.fork(),
                code_pages: self.code_pages,
            },
        )
    }

    /// Release every page this address space holds: stack, heap and code.
    pub fn clean_up(&mut self, alloc: &mut FrameAllocator)
        requires
            old(self).wf(),
            old(alloc).free + old(self).mapped_pages() <= old(alloc).total,
        ensures
            final(alloc).total == old(alloc).total,
            final(alloc).free == old(alloc).free + old(self).mapped_pages(),
            final(self).mapped_pages() == 0,
            final(self).wf() == final(self).stack.wf(),
            final(self).heap.wf(),
    {
        self.stack.clean_up(alloc);
        self.heap.clean_up(alloc);
        alloc.release(self.code_pages);
        self.code_pages = 0;
    }

    /// Bytes of memory this process maps for stack and heap.
    pub fn memory_usage(&self) -> (r: u64)
        requires
            self.wf(),
        ensures
            r == self.stack.usage * crate::PAGE_SIZE + (self.heap.spec_end()
                - crate::heap::HEAP_START),
    {
        proof {
            crate::stack::lemma_wf_usage_bound(self.stack);
        }
        self.stack.memory_usage() + self.heap.memory_usage()
    }
}

} // verus!
