//! Layout and timing constants shared by every subsystem.
use vstd::prelude::*;

verus! {

/// Bytes in one page.
pub const PAGE_SIZE: usize = 4096;

/// Virtual address of the trampoline page: the last page of the address space.
pub const TRAMPOLINE: usize = usize::MAX - PAGE_SIZE + 1;

/// Virtual address of the trap-context page: one page below the trampoline.
pub const TRAP_CONTEXT: usize = TRAMPOLINE - PAGE_SIZE;

/// Bytes of user stack reserved above the highest loaded segment.
pub const USER_STACK_SIZE: usize = 8 * 4096;

/// Largest distance between the base of the heap and the program break.
pub const USER_HEAP_SIZE: usize = 256 * 4096;

/// Where the downward-growing `mmap` cursor starts.
pub const MMAP_BASE: usize = 0x6000_0000;

/// Bytes of kernel stack owned by each process.
pub const KERNEL_STACK_SIZE: usize = 2 * 4096;

/// Timer ticks per second.
pub const CLOCK_FREQ: usize = 12_500_000;

/// Preemption ticks per second.
pub const TICKS_PER_SEC: usize = 100;

/// Milliseconds per second.
pub const MSEC_PER_SEC: usize = 1000;

/// Upper bound on the number of process identifiers ever handed out at once.
pub const MAX_PID: usize = 0x1_0000;

/// Return value a system call uses inside the kernel to say that it has to
/// be tried again once other tasks have run.
pub const RETRY: isize = -2;

} // verus!
