//! Kernel-wide constants. The kernel runs on RV64, so machine words and
//! addresses are `u64`.
use vstd::prelude::*;

verus! {

/// Size of a user application stack.
pub const USER_STACK_SIZE: u64 = 8192;

/// Size of a kernel stack.
pub const KERNEL_STACK_SIZE: u64 = 16384;

/// Size of the kernel heap.
pub const KERNEL_HEAP_SIZE: u64 = 0x200_0000;

/// Page size: 4 KiB.
pub const PAGE_SIZE: u64 = 0x1000;

/// Number of offset bits inside a page.
pub const PAGE_SIZE_BITS: u64 = 0xc;

/// Virtual address of the trampoline page (the last page of the address space).
pub const TRAMPOLINE: u64 = u64::MAX - PAGE_SIZE + 1;

/// Virtual address of the trap context page, right below the trampoline.
pub const TRAP_CONTEXT_BASE: u64 = TRAMPOLINE - PAGE_SIZE;

/// Timer frequency in ticks per second.
pub const CLOCK_FREQ: u64 = 12500000;

/// End of physical memory.
pub const MEMORY_END: u64 = 0x88000000;

/// The stride span used by the stride scheduler.
pub const BIG_STRIDE: u64 = 0x10000;

/// `TRAMPOLINE` is the last page and `TRAP_CONTEXT_BASE` the page before it.
pub proof fn lemma_layout_constants()
    ensures
        TRAMPOLINE == u64::MAX - PAGE_SIZE + 1,
        TRAMPOLINE == 0xffff_ffff_ffff_f000,
        TRAP_CONTEXT_BASE == 0xffff_ffff_ffff_e000,
        TRAP_CONTEXT_BASE == TRAMPOLINE - PAGE_SIZE,
        USER_STACK_SIZE == 4096 * 2,
        KERNEL_STACK_SIZE == 4096 * 4,
        PAGE_SIZE == 4096,
{
}

} // verus!
