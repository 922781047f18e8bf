//! The per-process user stack: a pid-indexed slot, grown downward on demand.
//!
//! Every pid owns a fixed 4 GiB window ("slot") of virtual memory below
//! `STACK_MAX`; the stack starts as one page at the top of the slot and grows
//! toward the slot base when a page fault lands inside the slot. The kernel's
//! own stack lives in a separate window high in the address space and is
//! handled by the same logic.

use vstd::prelude::*;

use crate::frames::FrameAllocator;
use crate::PAGE_SIZE;

verus! {

/// Upper end of the user stack area: slot 1 ends here.
pub const STACK_MAX: u64 = 0x4000_0000_0000;
/// Pages in one stack slot.
pub const STACK_MAX_PAGES: u64 = 0x100000;
/// Bytes in one stack slot (4 GiB).
pub const STACK_MAX_SIZE: u64 = STACK_MAX_PAGES * PAGE_SIZE;
/// Number of distinct user stack slots.
pub const STACK_SLOTS: u64 = STACK_MAX / STACK_MAX_SIZE;
/// Pages mapped when a stack is first initialised.
pub const STACK_DEF_PAGE: u64 = 1;
/// Bytes mapped when a stack is first initialised.
pub const STACK_DEF_SIZE: u64 = STACK_DEF_PAGE * PAGE_SIZE;
/// Initial bottom of slot 1.
pub const STACK_INIT_BOT: u64 = STACK_MAX - STACK_DEF_SIZE;
/// Initial top address of slot 1.
pub const STACK_INIT_TOP: u64 = STACK_MAX - 8;

/// Upper end of the kernel stack window.
pub const KSTACK_MAX: u64 = 0xffff_ff02_0000_0000;
/// Pages the kernel stack starts with.
pub const KSTACK_DEF_PAGE: u64 = 11;
/// Bytes the kernel stack starts with.
pub const KSTACK_DEF_SIZE: u64 = KSTACK_DEF_PAGE * PAGE_SIZE;
/// Initial bottom of the kernel stack.
pub const KSTACK_INIT_BOT: u64 = KSTACK_MAX - KSTACK_DEF_SIZE;
/// Initial top address of the kernel stack.
pub const KSTACK_INIT_TOP: u64 = KSTACK_MAX - 8;

/// Base of the 4 GiB window that `addr` falls in.
pub open spec fn window_base(addr: u64) -> int {
    (addr / STACK_MAX_SIZE) * (STACK_MAX_SIZE as int)
}

/// Base address of a pid's default stack mapping: one page below the top of
/// its slot.
pub open spec fn slot_init_bottom(pid: u16) -> int {
    STACK_MAX - (pid - 1) * STACK_MAX_SIZE - STACK_DEF_SIZE
}

/// Low end of stack slot number `slot` (slot 1 is the highest).
pub open spec fn slot_base(slot: u64) -> int {
    STACK_MAX - slot * STACK_MAX_SIZE
}

/// Start address of the page containing `addr`.
pub open spec fn page_round_down(addr: u64) -> int {
    (addr / PAGE_SIZE) * (PAGE_SIZE as int)
}

/// A contiguous mapped stack range `[bottom, bottom + usage pages)`.
pub struct Stack {
    /// Lowest mapped address; page aligned.
    pub bottom: u64,
    /// Number of mapped pages.
    pub usage: u64,
}

/// What a stack page fault does: the stack and free-frame count afterwards,
/// and whether the fault was resolved by growth (`false` is fatal to the
/// process). A fault below `bottom` but inside the slot maps the missing
/// pages; a fault outside the slot, or growth the frame allocator cannot
/// back, is not handled.
pub open spec fn page_fault_spec(s: Stack, free: int, addr: u64) -> (Stack, int, bool) {
    if window_base(addr) != window_base(s.bottom) {
        (s, free, false)
    } else {
        let nb = page_round_down(addr);
        if nb >= s.bottom {
            (s, free, true)
        } else {
            let pages = (s.bottom - nb) / (PAGE_SIZE as int);
            if free >= pages {
                (
                    Stack { bottom: nb as u64, usage: (s.usage + pages) as u64 },
                    free - pages,
                    true,
                )
            } else {
                (s, free, false)
            }
        }
    }
}

impl Stack {
    /// The mapped range stays page aligned, non-empty, and inside one slot.
    pub open spec fn wf(self) -> bool {
        &&& self.bottom % PAGE_SIZE == 0
        &&& 1 <= self.usage
        &&& self.bottom + self.usage * PAGE_SIZE <= u64::MAX
        &&& window_base(self.bottom) == window_base(
            (self.bottom + self.usage * PAGE_SIZE - 1) as u64,
        )
    }

    /// Address one past the highest mapped byte.
    pub open spec fn spec_end(self) -> int {
        self.bottom + self.usage * PAGE_SIZE
    }

    /// A stack record with nothing mapped yet.
    pub fn empty() -> (s: Stack)
        ensures
            s.usage == 0,
            s.bottom == STACK_MAX - PAGE_SIZE,
    {
        Stack { bottom: STACK_MAX - PAGE_SIZE, usage: 0 }
    }

    /// The kernel stack, pre-mapped by the bootloader.
    pub fn kstack() -> (s: Stack)
        ensures
            s.bottom == KSTACK_INIT_BOT,
            s.usage == KSTACK_DEF_PAGE,
            s.wf(),
    {
        let s = Stack { bottom: KSTACK_INIT_BOT, usage: KSTACK_DEF_PAGE };
        proof {
            assert(s.bottom == 0xffff_ff01_ffff_5000u64);
            assert(s.bottom + s.usage * PAGE_SIZE - 1 == 0xffff_ff01_ffff_ffffu64);
            assert(0xffff_ff01_ffff_5000u64 / STACK_MAX_SIZE == 0xffff_ff01u64);
            assert(0xffff_ff01_ffff_ffffu64 / STACK_MAX_SIZE == 0xffff_ff01u64);
        }
        s
    }

    /// A stack of `size` pages whose top page starts at `top`.
    pub fn new(top: u64, size: u64) -> (s: Stack)
        requires
            top % PAGE_SIZE == 0,
            1 <= size,
            (size - 1) * PAGE_SIZE <= top,
        ensures
            s.bottom == top - (size - 1) * PAGE_SIZE,
            s.usage == size,
    {
        Stack { bottom: top - (size - 1) * PAGE_SIZE, usage: size }
    }

    /// Number of mapped pages.
    pub fn usage(&self) -> (r: u64)
        ensures
            r == self.usage,
    {
        self.usage
    }

    /// Lowest mapped address.
    pub fn stack_min_addr(&self) -> (r: u64)
        ensures
            r == self.bottom,
    {
        self.bottom
    }

    /// Bytes of stack mapped.
    pub fn memory_usage(&self) -> (r: u64)
        requires
            self.usage * PAGE_SIZE <= u64::MAX,
        ensures
            r == self.usage * PAGE_SIZE,
    {
        self.usage * PAGE_SIZE
    }

    /// Overwrite the mapped range record.
    pub fn set_stack(&mut self, bottom: u64, page_num: u64)
        ensures
            *final(self) == (Stack { bottom, usage: page_num }),
    {
        self.bottom = bottom;
        self.usage = page_num;
    }

    /// Distance between this stack's bottom and an older stack's bottom.
    pub fn stack_offset(&self, old_stack: &Stack) -> (r: u64)
        requires
            old_stack.bottom <= self.bottom,
        ensures
            r == self.bottom - old_stack.bottom,
    {
        self.bottom - old_stack.bottom
    }

    /// Map the default page at `pid`'s slot and return the initial stack top.
    /// Only an uninitialised stack may be initialised.
    pub fn init(&mut self, alloc: &mut FrameAllocator, pid: u16) -> (top: u64)
        requires
            old(self).usage == 0,
            1 <= pid <= STACK_SLOTS,
            old(alloc).free >= STACK_DEF_PAGE,
        ensures
            final(self).bottom == slot_init_bottom(pid),
            final(self).usage == STACK_DEF_PAGE,
            final(self).wf(),
            top == slot_init_bottom(pid) + STACK_DEF_SIZE - 8,
            final(alloc).free == old(alloc).free - STACK_DEF_PAGE,
            final(alloc).total == old(alloc).total,
    {
        let ok = alloc.allocate(STACK_DEF_PAGE);
        proof {
            assert(1 <= pid <= 0x4000 ==> {
                let b = (STACK_MAX - (pid - 1) * STACK_MAX_SIZE - STACK_DEF_SIZE) as u64;
                b % PAGE_SIZE == 0 && window_base(b) == window_base((b + PAGE_SIZE - 1) as u64)
            }) by (nonlinear_arith);
        }
        let stack_bottom = STACK_MAX - ((pid - 1) as u64) * STACK_MAX_SIZE - STACK_DEF_SIZE;
        self.bottom = stack_bottom;
        self.usage = STACK_DEF_PAGE;
        stack_bottom + STACK_DEF_SIZE - 8
    }

    /// Whether `addr` lies in the same slot as this stack.
    pub fn is_on_stack(&self, addr: u64) -> (r: bool)
        ensures
            r == (window_base(addr) == window_base(self.bottom)),
    {
        addr / STACK_MAX_SIZE == self.bottom / STACK_MAX_SIZE
    }

    /// Resolve a page fault at `addr` by growing the stack downward; reports
    /// whether the fault is handled.
    pub fn handle_page_fault(&mut self, addr: u64, alloc: &mut FrameAllocator) -> (r: bool)
        requires
            old(self).wf(),
        ensures
            final(self).wf(),
            final(alloc).total == old(alloc).total,
            ({
                let (s2, f2, r2) = page_fault_spec(*old(self), old(alloc).free as int, addr);
                *final(self) == s2 && final(alloc).free == f2 && r == r2
            }),
            final(alloc).free + final(self).usage == old(alloc).free + old(self).usage,
    {
        if !self.is_on_stack(addr) {
            return false;
        }
        let new_bottom = (addr / PAGE_SIZE) * PAGE_SIZE;
        if new_bottom >= self.bottom {
            return true;
        }
        let pages = (self.bottom - new_bottom) / PAGE_SIZE;
        proof {
            lemma_window_round_down(addr, self.bottom);
            assert((self.bottom - new_bottom) % (PAGE_SIZE as int) == 0) by (nonlinear_arith)
                requires
                    self.bottom % PAGE_SIZE == 0,
                    new_bottom == (addr / PAGE_SIZE) * PAGE_SIZE,
                    new_bottom < self.bottom,
            ;
        }
        if alloc.allocate(pages) {
            self.bottom = new_bottom;
            self.usage = self.usage + pages;
            proof {
                assert(self.wf()) by {
                    lemma_window_round_down(addr, self.bottom);
                    assert(self.bottom % PAGE_SIZE == 0) by (nonlinear_arith)
                        requires
                            self.bottom == (addr / PAGE_SIZE) * PAGE_SIZE,
                    ;
                }
            }
            true
        } else {
            false
        }
    }

    /// Unmap every stack page; idempotent.
    pub fn clean_up(&mut self, alloc: &mut FrameAllocator)
        requires
            old(alloc).free + old(self).usage <= old(alloc).total,
        ensures
            final(self).bottom == old(self).bottom,
            final(self).usage == 0,
            final(alloc).total == old(alloc).total,
            final(alloc).free == old(alloc).free + old(self).usage,
    {
        if self.usage == 0 {
            return;
        }
        alloc.release(self.usage);
        self.usage = 0;
    }

    /// Map a copy of this stack at the same offset inside slot `slot` (the
    /// child keeps the low 32 bits of its addresses and replaces the high
    /// bits with the new slot's base). Fails without enough frames.
    pub fn fork(&self, alloc: &mut FrameAllocator, slot: u64) -> (r: Option<Stack>)
        requires
            self.wf(),
            1 <= slot <= STACK_SLOTS,
        ensures
            final(alloc).total == old(alloc).total,
            old(alloc).free >= self.usage <==> r is Some,
            r is Some ==> {
                let c = r->Some_0;
                &&& c.usage == self.usage
                &&& c.bottom == slot_base(slot) + (self.bottom - window_base(self.bottom))
                &&& window_base(c.bottom) == slot_base(slot)
                &&& c.wf()
                &&& final(alloc).free == old(alloc).free - self.usage
            },
            r is None ==> *final(alloc) == *old(alloc),
    {
        proof {
            lemma_slot_copy_wf(*self, slot);
        }
        if !alloc.allocate(self.usage) {
            return None;
        }
        let offset = self.bottom % STACK_MAX_SIZE;
        let child_bottom = (STACK_MAX - slot * STACK_MAX_SIZE) + offset;
        Some(Stack { bottom: child_bottom, usage: self.usage })
    }
}

/// A pid's default stack page lies in that pid's own slot.
pub proof fn lemma_slot_init_window(pid: u16)
    requires
        1 <= pid <= STACK_SLOTS,
    ensures
        0 <= slot_init_bottom(pid) <= u64::MAX,
        window_base(slot_init_bottom(pid) as u64) == slot_base(pid as u64),
        slot_init_bottom(pid) % (PAGE_SIZE as int) == 0,
{
    assert(0 <= slot_init_bottom(pid) <= u64::MAX && window_base(slot_init_bottom(pid) as u64)
        == slot_base(pid as u64) && slot_init_bottom(pid) % (PAGE_SIZE as int) == 0)
        by (nonlinear_arith)
        requires
            1 <= pid <= STACK_SLOTS,
    ;
}

/// A well-formed stack fits inside one slot, so it holds at most a slot's
/// worth of pages.
pub proof fn lemma_wf_usage_bound(s: Stack)
    requires
        s.wf(),
    ensures
        s.usage <= STACK_MAX_PAGES,
{
    assert(s.usage <= STACK_MAX_PAGES) by (nonlinear_arith)
        requires
            s.wf(),
    ;
}

/// Rounding an address down to its page keeps it in the same 4 GiB window.
pub proof fn lemma_window_round_down(addr: u64, bottom: u64)
    ensures
        window_base((addr / PAGE_SIZE * PAGE_SIZE) as u64) == window_base(addr),
        ((addr / PAGE_SIZE) * PAGE_SIZE) % (PAGE_SIZE as int) == 0,
{
    assert(window_base((addr / PAGE_SIZE * PAGE_SIZE) as u64) == window_base(addr)
        && ((addr / PAGE_SIZE) * PAGE_SIZE) % (PAGE_SIZE as int) == 0) by (nonlinear_arith);
}

/// Moving a well-formed stack range to the same offset of another slot keeps
/// it well formed and puts it in that slot's window.
proof fn lemma_slot_copy_wf(s: Stack, slot: u64)
    requires
        s.wf(),
        1 <= slot <= STACK_SLOTS,
    ensures
        ({
            let off = s.bottom - window_base(s.bottom);
            let cb = slot_base(slot) + off;
            &&& 0 <= cb
            &&& cb + s.usage * PAGE_SIZE <= u64::MAX
            &&& (Stack { bottom: cb as u64, usage: s.usage }).wf()
            &&& window_base(cb as u64) == slot_base(slot)
            &&& s.bottom % STACK_MAX_SIZE == off
            &&& slot_base(slot) == STACK_MAX - slot * STACK_MAX_SIZE
        }),
{
    assert(({
        let off = s.bottom - window_base(s.bottom);
        let cb = slot_base(slot) + off;
        &&& 0 <= cb
        &&& cb + s.usage * PAGE_SIZE <= u64::MAX
        &&& (Stack { bottom: cb as u64, usage: s.usage }).wf()
        &&& window_base(cb as u64) == slot_base(slot)
        &&& s.bottom % STACK_MAX_SIZE == off
        &&& slot_base(slot) == STACK_MAX - slot * STACK_MAX_SIZE
    })) by (nonlinear_arith)
        requires
            s.wf(),
            1 <= slot <= STACK_SLOTS,
    ;
}

/// Law: a fault anywhere inside the stack's own slot is handled whenever the
/// frame allocator can back a whole slot; in particular writing 64 KiB below
/// the current top succeeds.
pub proof fn lemma_stack_growth_in_slot(s: Stack, free: int, addr: u64)
    requires
        s.wf(),
        window_base(addr) == window_base(s.bottom),
        free >= STACK_MAX_PAGES,
    ensures
        page_fault_spec(s, free, addr).2 == true,
{
    let nb = page_round_down(addr);
    if nb < s.bottom {
        assert(0 <= s.bottom - nb < STACK_MAX_SIZE && (s.bottom - nb) / (PAGE_SIZE as int)
            <= STACK_MAX_PAGES) by (nonlinear_arith)
            requires
                window_base(addr) == window_base(s.bottom),
                nb == page_round_down(addr),
                nb < s.bottom,
        ;
    }
}

/// Law: a fault below the stack's slot is fatal: the address one byte under
/// the slot base is not handled and nothing changes.
pub proof fn lemma_fault_outside_slot_fatal(s: Stack, free: int, addr: u64)
    requires
        s.wf(),
        addr < window_base(s.bottom),
    ensures
        page_fault_spec(s, free, addr) == (s, free, false),
{
    assert(window_base(addr) != window_base(s.bottom)) by (nonlinear_arith)
        requires
            addr < window_base(s.bottom),
    ;
}

} // verus!
