//! The saved kernel-side register context of a task.
//!
//! Only what a context switch must preserve is stored: the return
//! address the switch resumes at, the kernel stack pointer, and the
//! twelve callee-saved registers.
use vstd::prelude::*;

verus! {

pub struct TaskContext {
    /// Address the switch routine returns to.
    pub ra: u64,
    /// Kernel stack pointer of the task.
    pub sp: u64,
    /// Callee-saved registers s0..s11.
    pub s: Vec<u64>,
}

impl TaskContext {
    /// A context always carries exactly twelve callee-saved registers.
    pub open spec fn wf(&self) -> bool {
        self.s@.len() == 12
    }

    /// The all-zero context, used once as the discard target of the
    /// very first dispatch.
    pub fn zero_init() -> (r: TaskContext)
        ensures
            r.wf(),
            r.ra == 0,
            r.sp == 0,
            forall|i: int| 0 <= i < 12 ==> r.s@[i] == 0,
    {
        let mut s: Vec<u64> = Vec::new();
        let mut i: usize = 0;
        while i < 12
            invariant
                i <= 12,
                s@.len() == i,
                forall|k: int| 0 <= k < i ==> s@[k] == 0,
            decreases 12 - i,
        {
            s.push(0);
            i = i + 1;
        }
        TaskContext { ra: 0, sp: 0, s }
    }

    /// The initial context of a fresh task: resume at the common
    /// trap-return entry (`trap_return_va`, fixed by the boot contract)
    /// with the stack pointer at the top of the task's kernel stack.
    pub fn goto_trap_return(kstack_ptr: u64, trap_return_va: u64) -> (r: TaskContext)
        ensures
            r.wf(),
            r.ra == trap_return_va,
            r.sp == kstack_ptr,
            forall|i: int| 0 <= i < 12 ==> r.s@[i] == 0,
    {
        let mut r = TaskContext::zero_init();
        r.ra = trap_return_va;
        r.sp = kstack_ptr;
        r
    }
}

} // verus!
