//! The per-process user heap: a `brk`-style contiguous region.
//!
//! The heap occupies the fixed window starting at `HEAP_START`. Its state is
//! the immutable `base` and the byte-granular current `end`; the pages backing
//! `[base, end)` are mapped, page-rounded upward. Moving the break maps or
//! unmaps exactly the difference in page-rounded upper bounds and charges the
//! frame allocator for it; a failed mapping leaves the break unchanged.

use vstd::prelude::*;

use crate::frames::FrameAllocator;
use crate::PAGE_SIZE;

verus! {

/// Lowest address of the user heap window.
pub const HEAP_START: u64 = 0x2000_0000_0000;
/// Largest number of pages the heap may occupy.
pub const HEAP_PAGES: u64 = 0x100000;
/// Size in bytes of the heap window.
pub const HEAP_SIZE: u64 = HEAP_PAGES * PAGE_SIZE;
/// Largest value the break may take.
pub const HEAP_END: u64 = HEAP_START + HEAP_SIZE - 8;

/// Number of pages mapped for a heap whose break is `end`: the page-rounded
/// upper bound of `[HEAP_START, end)`.
pub open spec fn pages_for(end: u64) -> int
    recommends
        HEAP_START <= end,
{
    (end - HEAP_START + (PAGE_SIZE - 1)) / (PAGE_SIZE as int)
}

/// User process runtime heap; the mapped range is `[base, end)`, page-rounded.
pub struct Heap {
    /// The base address of the heap; immutable after initialization.
    pub base: u64,
    /// The current end address of the heap.
    pub end: u64,
}

/// What one `brk` call does: the heap and free-frame count after the call,
/// and the returned break (`None` is failure).
pub open spec fn brk_spec(h: Heap, free: int, addr: Option<u64>) -> (Heap, int, Option<u64>) {
    match addr {
        None => (h, free, Some(h.end)),
        Some(new_end) => {
            if new_end < HEAP_START || new_end > HEAP_END {
                (h, free, None)
            } else {
                let p0 = pages_for(h.end);
                let p1 = pages_for(new_end);
                if p1 > p0 && free < p1 - p0 {
                    (h, free, None)
                } else {
                    (Heap { base: h.base, end: new_end }, free + p0 - p1, Some(new_end))
                }
            }
        },
    }
}

impl Heap {
    pub open spec fn wf(self) -> bool {
        &&& self.base == HEAP_START
        &&& HEAP_START <= self.end <= HEAP_END
    }

    pub open spec fn spec_base(self) -> u64 {
        self.base
    }

    pub open spec fn spec_end(self) -> u64 {
        self.end
    }

    /// Pages currently mapped for this heap.
    pub open spec fn mapped_pages(self) -> int {
        pages_for(self.end)
    }

    /// A heap with nothing mapped and the break at the base.
    pub fn empty() -> (h: Heap)
        ensures
            h.wf(),
            h.spec_end() == HEAP_START,
            h.mapped_pages() == 0,
    {
        Heap { base: HEAP_START, end: HEAP_START }
    }

    /// The child's view of the heap after a fork: its own copy of the
    /// current break (the child's pages are charged by the fork itself).
    pub fn fork(&self) -> (h: Heap)
        ensures
            h == *self,
    {
        Heap { base: self.base, end: self.end }
    }

    /// Current break.
    pub fn end(&self) -> (r: u64)
        ensures
            r == self.spec_end(),
    {
        self.end
    }

    /// Pages currently mapped, as a value.
    pub fn mapped_pages_count(&self) -> (r: u64)
        requires
            self.wf(),
        ensures
            r == self.mapped_pages(),
            r <= HEAP_PAGES,
    {
        (self.end - HEAP_START + (PAGE_SIZE - 1)) / PAGE_SIZE
    }

    /// Current break, relative to the base.
    pub fn memory_usage(&self) -> (r: u64)
        requires
            self.wf(),
        ensures
            r == self.spec_end() - self.spec_base(),
    {
        self.end - self.base
    }

    /// Move the break.
    ///
    /// `None` asks for the current end. `Some(new_end)` within
    /// `[HEAP_START, HEAP_END]` moves the break there, mapping or unmapping
    /// the difference in page-rounded bounds; setting it to the base unmaps
    /// everything. Out-of-range requests and mapping failures (not enough
    /// frames) change nothing and return `None`.
    pub fn brk(&mut self, addr: Option<u64>, alloc: &mut FrameAllocator) -> (r: Option<u64>)
        requires
            old(self).wf(),
            old(alloc).free + old(self).mapped_pages() <= old(alloc).total,
        ensures
            final(self).wf(),
            final(alloc).total == old(alloc).total,
            ({
                let (h2, f2, r2) = brk_spec(*old(self), old(alloc).free as int, addr);
                *final(self) == h2 && final(alloc).free == f2 && r == r2
            }),
            final(alloc).free + final(self).mapped_pages()
                == old(alloc).free + old(self).mapped_pages(),
    {
        match addr {
            None => Some(self.end),
            Some(new_end) => {
                if new_end < HEAP_START || new_end > HEAP_END {
                    None
                } else {
                    let p0 = (self.end - HEAP_START + (PAGE_SIZE - 1)) / PAGE_SIZE;
                    let p1 = (new_end - HEAP_START + (PAGE_SIZE - 1)) / PAGE_SIZE;
                    if p1 > p0 {
                        if alloc.allocate(p1 - p0) {
                            self.end = new_end;
                            Some(new_end)
                        } else {
                            None
                        }
                    } else {
                        alloc.release(p0 - p1);
                        self.end = new_end;
                        Some(new_end)
                    }
                }
            },
        }
    }

    /// Unmap every heap page and reset the break to the base.
    pub fn clean_up(&mut self, alloc: &mut FrameAllocator)
        requires
            old(self).wf(),
            old(alloc).free + old(self).mapped_pages() <= old(alloc).total,
        ensures
            final(self).wf(),
            final(self).spec_end() == HEAP_START,
            final(self).mapped_pages() == 0,
            final(alloc).total == old(alloc).total,
            final(alloc).free == old(alloc).free + old(self).mapped_pages(),
    {
        let pages = (self.end - HEAP_START + (PAGE_SIZE - 1)) / PAGE_SIZE;
        alloc.release(pages);
        self.end = HEAP_START;
    }
}

/// Law: moving the break to the base is idempotent. Both calls succeed, and
/// after each the break sits at the base with zero heap pages mapped.
pub proof fn lemma_brk_idempotent_at_base(h: Heap, free: int)
    requires
        h.wf(),
    ensures
        ({
            let (h1, f1, r1) = brk_spec(h, free, Some(HEAP_START));
            let (h2, f2, r2) = brk_spec(h1, f1, Some(HEAP_START));
            &&& r1 == Some(HEAP_START)
            &&& r2 == Some(HEAP_START)
            &&& h1.spec_end() == HEAP_START
            &&& h1.mapped_pages() == 0
            &&& h2 == h1
            &&& f2 == f1
        }),
{
}

/// Law: the break round-trips. For any `x` in `[HEAP_START, HEAP_END]`, if
/// enough frames are free for the growth, `brk(Some(x))` succeeds and an
/// immediately following `brk(None)` returns `x`.
pub proof fn lemma_brk_round_trip(h: Heap, free: int, x: u64)
    requires
        h.wf(),
        HEAP_START <= x <= HEAP_END,
        free >= pages_for(x) - pages_for(h.spec_end()),
    ensures
        ({
            let (h1, f1, r1) = brk_spec(h, free, Some(x));
            let (h2, f2, r2) = brk_spec(h1, f1, None);
            &&& r1 == Some(x)
            &&& h1.spec_end() == x
            &&& r2 == Some(x)
            &&& h2 == h1
        }),
{
}

} // verus!
