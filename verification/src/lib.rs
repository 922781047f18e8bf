//! A verified model of a small teaching operating system's process subsystem.
//!
//! The library captures the kernel's decision logic over plain values: process
//! identifiers and lifecycle states, per-process virtual memory (a demand-grown
//! user stack and a `brk`-style heap), keyed counting semaphores with FIFO wait
//! queues, the process registry with its ready queue and waiters map, and the
//! syscall dispatcher. Hardware effects (page-table writes, context switches,
//! port I/O) are represented by state the kernel owns: mapped page counts, a
//! frame budget, and saved register frames. A FAT16 directory and file layer
//! over an abstract block device completes the picture.

use vstd::prelude::*;

pub mod clock;
pub mod context;
pub mod data;
pub mod direntry;
pub mod fserror;
pub mod frames;
pub mod stack;
pub mod vm;
pub mod heap;
pub mod pid;
pub mod process;
pub mod procs;
pub mod runtime;
pub mod service;
pub mod sync;
pub mod syscall;
pub mod input;
pub mod manager;
pub mod resource;
pub mod semaphore;

verus! {

/// Size in bytes of one physical or virtual page.
pub const PAGE_SIZE: u64 = 0x1000;

/// Pid of the kernel process; user pids start above it.
pub const KERNEL_PID: u16 = 1;

/// Write a pattern down a fresh region and read it back: the smoke test the
/// kernel runs on its own demand-grown stack right after boot.
pub fn grow_stack() -> (ok: bool)
    ensures
        ok,
{
    let size: usize = 1024 * 16;
    let step: usize = 64;
    let mut region: Vec<u64> = Vec::new();
    let mut i: usize = 0;
    while i < size
        invariant
            i <= size,
            region@.len() == i,
        decreases size - i,
    {
        region.push(0);
        i = i + 1;
    }
    let mut j: usize = 0;
    while j < size
        invariant
            j <= size,
            j % step == 0,
            size == 1024 * 16,
            region@.len() == size,
            forall|t: int| 0 <= t < j && t % (step as int) == 0 ==> #[trigger] region@[t] == t,
            step == 64,
        decreases size - j,
    {
        proof {
            assert(j + 64 <= 16384) by (nonlinear_arith)
                requires
                    j < 16384 && j % 64 == 0,
            ;
        }
        region[j] = j as u64;
        j = j + step;
    }
    let mut k: usize = 0;
    let mut ok = true;
    while k < size
        invariant
            k <= size,
            size == 1024 * 16,
            region@.len() == size,
            forall|t: int| 0 <= t < size && t % (step as int) == 0 ==> #[trigger] region@[t] == t,
            step == 64,
            ok,
            k % step == 0,
        decreases size - k,
    {
        proof {
            assert(k + 64 <= 16384) by (nonlinear_arith)
                requires
                    k < 16384 && k % 64 == 0,
            ;
        }
        if region[k] != k as u64 {
            ok = false;
        }
        k = k + step;
    }
    ok
}

} // verus!
