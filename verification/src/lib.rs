//! Verified core of a small RISC-V SV39 teaching kernel: address arithmetic,
//! the buddy heap, the physical frame allocator, page-table entries, memory
//! map bookkeeping, stride scheduling and the decision logic behind the
//! system calls and the trap handler.
use vstd::prelude::*;

pub mod config;
pub mod mm;
pub mod buddy_system;
pub mod task;
pub mod trap;
pub mod syscall;
pub mod timer;

verus! {

} // verus!
