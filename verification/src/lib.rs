//! Verified core logic of a small RISC-V (Sv39) teaching kernel: address
//! arithmetic, physical frame allocation, a three-level page table, address
//! spaces, a bump heap allocator, cooperative task scheduling, trap and
//! system-call decoding, and the SBI calls the kernel issues.
use vstd::prelude::*;

pub mod address;
pub mod batch;
pub mod frame_allocator;
pub mod heap_allocator;
pub mod memory_set;
pub mod mm;
pub mod page_table;
pub mod sbi;
pub mod sys;
pub mod task;
pub mod trap;
pub mod utils;
pub mod user;
