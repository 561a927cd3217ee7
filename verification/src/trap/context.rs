//! The trap context: everything saved and restored at each crossing
//! between an application and the kernel.
//!
//! The layout is a fixed wire contract shared with the applications:
//! 32 general registers, the saved processor status, the saved program
//! counter, then three kernel-return fields written once at task
//! creation (kernel address-space token, kernel stack top, trap-handler
//! entry address). On hardware the record lives in the bytes of each
//! task's trap-context page; in this model the harness exchanges it as
//! this struct, whose field order is that byte layout, while the
//! mapped trap-context page itself stays zeroed.
use vstd::prelude::*;

verus! {

/// Index of the stack-pointer register in the general register file.
pub const REG_SP: usize = 2;
/// Index of the first argument / return-value register.
pub const REG_A0: usize = 10;
/// Index of the second argument register.
pub const REG_A1: usize = 11;
/// Index of the third argument register.
pub const REG_A2: usize = 12;
/// Index of the syscall-id register.
pub const REG_A7: usize = 17;

/// Saved processor status with previous privilege set to user mode.
pub const SSTATUS_USER: u64 = 0;

pub struct TrapContext {
    /// General registers x0..x31.
    pub x: Vec<u64>,
    /// Saved processor status (previous privilege level).
    pub sstatus: u64,
    /// Saved program counter.
    pub sepc: u64,
    /// The kernel address space's token.
    pub kernel_satp: u64,
    /// Top of the owning task's kernel stack.
    pub kernel_sp: u64,
    /// Entry address of the kernel's trap handler.
    pub trap_handler: u64,
}

impl TrapContext {
    /// A trap context always carries exactly 32 general registers.
    pub open spec fn wf(&self) -> bool {
        self.x@.len() == 32
    }

    /// Set the saved stack pointer.
    pub fn set_sp(&mut self, sp: u64)
        requires
            old(self).wf(),
        ensures
            final(self).wf(),
            final(self).x@ == old(self).x@.update(REG_SP as int, sp),
            final(self).sstatus == old(self).sstatus,
            final(self).sepc == old(self).sepc,
            final(self).kernel_satp == old(self).kernel_satp,
            final(self).kernel_sp == old(self).kernel_sp,
            final(self).trap_handler == old(self).trap_handler,
    {
        self.x.set(REG_SP, sp);
    }

    /// The initial trap context of an application: zeroed registers but
    /// for the user stack pointer, user privilege, the entry point in
    /// the saved program counter, and the three kernel-return fields.
    pub fn app_init_context(
        entry: u64,
        sp: u64,
        kernel_satp: u64,
        kernel_sp: u64,
        trap_handler: u64,
    ) -> (r: TrapContext)
        ensures
            r.wf(),
            r.x@[REG_SP as int] == sp,
            forall|i: int| 0 <= i < 32 && i != REG_SP ==> r.x@[i] == 0,
            r.sstatus == SSTATUS_USER,
            r.sepc == entry,
            r.kernel_satp == kernel_satp,
            r.kernel_sp == kernel_sp,
            r.trap_handler == trap_handler,
    {
        let mut x: Vec<u64> = Vec::new();
        let mut i: usize = 0;
        while i < 32
            invariant
                i <= 32,
                x@.len() == i,
                forall|k: int| 0 <= k < i ==> x@[k] == 0,
            decreases 32 - i,
        {
            x.push(0);
            i = i + 1;
        }
        let mut cx = TrapContext {
            x,
            sstatus: SSTATUS_USER,
            sepc: entry,
            kernel_satp,
            kernel_sp,
            trap_handler,
        };
        cx.set_sp(sp);
        cx
    }
}

} // verus!
