//! Fixed layout and timing constants shared by every kernel subsystem.
//!
//! The modeled machine has 64-bit words, so addresses, page numbers and
//! register values are `u64` throughout the crate; `usize` appears only
//! where host containers are indexed.
use vstd::prelude::*;

verus! {

/// Size in bytes of one page / one physical frame.
pub const PAGE_SIZE: u64 = 0x1000;
/// log2 of `PAGE_SIZE`.
pub const PAGE_SIZE_BITS: u64 = 12;

/// Size in bytes of each application's user stack.
pub const USER_STACK_SIZE: u64 = 4096 * 2;
/// Size in bytes of each task's dedicated kernel stack.
pub const KERNEL_STACK_SIZE: u64 = 4096 * 2;

/// First byte past usable physical memory.
pub const MEMORY_END: u64 = 0x80800000;

/// Virtual address of the shared trampoline page: the highest page of the
/// 64-bit virtual address range, present in every address space.
pub const TRAMPOLINE: u64 = 0xffff_ffff_ffff_f000;
/// Virtual address of each application's trap-context page, directly below
/// the trampoline.
pub const TRAP_CONTEXT: u64 = 0xffff_ffff_ffff_e000;

/// Hardware timer ticks per second.
pub const CLOCK_FREQ: u64 = 12500000;
/// Milliseconds per second, used to scale the raw counter.
pub const MICRO_PER_SEC: u64 = 1000;
/// Preemption timer interrupts per second.
pub const TICKS_PER_SEC: u64 = 1000;

/// Number of page-table entries in one table node.
pub const ENTRY_COUNT: usize = 512;

/// Virtual page numbers are 27 bits wide: three 9-bit indices.
pub const VPN_LIMIT: u64 = 0x8000000;

/// Virtual page number of the trampoline page: the highest page that
/// the three-level table can map.
pub const TRAMPOLINE_VPN: u64 = 0x7ffffff;
/// Virtual page number of each application's trap-context page.
pub const TRAP_CONTEXT_VPN: u64 = 0x7fffffe;

/// Bottom and top virtual addresses of the dedicated kernel stack of task
/// `app_id` in the kernel address space. Stacks grow down from just below
/// the trampoline page; each is separated from the next by one guard page.
pub fn kernel_stack_position(app_id: u64) -> (r: (u64, u64))
    requires
        app_id < 0x10000,
    ensures
        r.1 == TRAMPOLINE - app_id * (KERNEL_STACK_SIZE + PAGE_SIZE),
        r.0 == r.1 - KERNEL_STACK_SIZE,
{
    let top = TRAMPOLINE - app_id * (KERNEL_STACK_SIZE + PAGE_SIZE);
    let bottom = top - KERNEL_STACK_SIZE;
    (bottom, top)
}

} // verus!
