//! Core of a small preemptive multitasking kernel for the BCM2837 (AArch64).
//!
//! Everything here is plain, verified logic: the scheduler and its tasks, the
//! system-call gate, the interrupt-controller bookkeeping, the translation-table
//! encoding and the kernel's virtual memory layout. Register accesses, locks and
//! the heap allocator live with the caller, which hands plain values in and
//! performs the actions that come back.

pub mod exception;
pub mod process;
pub mod sched;
pub mod syscall;
pub mod interrupt;
pub mod memory;
pub mod mmu;
pub mod timer;
pub mod atag;
pub mod net;
pub mod bsp;
pub mod fairness;
