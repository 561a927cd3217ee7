//! A machine-independent model of a small paged, preemptible multitasking
//! kernel for a single-core RISC-V style machine.
//!
//! The library contains the kernel's policy and bookkeeping: the physical
//! frame allocator, the three-level radix page table, address spaces built
//! from mapped regions, task control blocks with a round-robin scheduler,
//! and the trap dispatcher that routes syscalls, faults and timer interrupts.
//! Hardware effects (CSR access, the register context switch, firmware
//! console output) are modelled as explicit state and input events, so that
//! every function here is executable and verified.
pub mod address;
pub mod config;
pub mod error;
pub mod frame_allocator;
pub mod frame_tracker;
pub mod kernel;
pub mod memory_set;
pub mod page_table;
pub mod syscall;
pub mod task;
pub mod timer;
pub mod trap;
pub mod user;
