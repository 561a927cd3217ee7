//! Trap dispatch: the entry point of every application/kernel boundary
//! crossing.
//!
//! The hardware reports a cause and an auxiliary fault value; the
//! dispatcher routes syscalls to the router, isolates faulting tasks by
//! terminating them, drives preemption from the timer interrupt, and
//! treats anything else as fatal. While kernel code runs the trap
//! vector selects the fatal kernel-trap handler; just before returning
//! to an application it is repointed at the shared trampoline.
use vstd::prelude::*;

use crate::config::{CLOCK_FREQ, TICKS_PER_SEC, TRAP_CONTEXT};
use crate::error::KernelError;
use crate::kernel::Kernel;
use crate::memory_set::{spec_buffer_ok, spec_user_bytes};
use crate::page_table::spec_satp_token;
use crate::syscall::{
    syscall, FD_STDOUT, SYSCALL_EXIT, SYSCALL_GET_TIME, SYSCALL_WRITE, SYSCALL_YIELD,
};
use crate::task::{exit_current_and_run_next, suspend_current_and_run_next};
use crate::timer::{set_next_trigger, spec_time_ms};
use crate::trap::context::{REG_A0, REG_A1, REG_A2, REG_A7};

pub mod context;

verus! {

/// The closed set of trap causes the dispatcher recognizes; any other
/// hardware cause arrives as `Other` and is fatal.
#[derive(Clone, Copy, PartialEq, Eq, Structural, Debug)]
pub enum TrapCause {
    UserEnvCall,
    StoreFault,
    StorePageFault,
    LoadFault,
    LoadPageFault,
    IllegalInstruction,
    SupervisorTimer,
    Other(u64),
}

/// Point the trap vector at the fatal kernel-trap handler; traps taken
/// while kernel code runs are not expected.
pub fn set_kernel_trap_entry(k: &mut Kernel)
    ensures
        *final(k) == (Kernel { user_trap_entry: false, ..*old(k) }),
{
    k.user_trap_entry = false;
}

/// Point the trap vector at the shared trampoline page, so the next
/// application trap is caught correctly.
pub fn set_user_trap_entry(k: &mut Kernel)
    ensures
        *final(k) == (Kernel { user_trap_entry: true, ..*old(k) }),
{
    k.user_trap_entry = true;
}

/// Install the boot-time trap vector: kernel entry.
pub fn init(k: &mut Kernel)
    ensures
        *final(k) == (Kernel { user_trap_entry: false, ..*old(k) }),
{
    set_kernel_trap_entry(k);
}

/// Switch the timer interrupt on: the sole preemption mechanism.
pub fn enable_timer_interrupt(k: &mut Kernel)
    ensures
        *final(k) == (Kernel { timer_interrupt_enabled: true, ..*old(k) }),
{
    k.timer_interrupt_enabled = true;
}

/// A trap taken while already in the kernel: a broken invariant, not a
/// recoverable condition. Yields the fatal error the kernel stops with.
pub fn trap_from_kernel() -> (r: KernelError)
    ensures
        r == KernelError::TrapFromKernel,
{
    KernelError::TrapFromKernel
}

/// Return to the application: repoint the trap vector at the
/// trampoline and hand back the two arguments of the switch sequence,
/// the resuming task's address-space token and the fixed virtual
/// address of its trap context.
pub fn trap_return(k: &mut Kernel) -> (r: (u64, u64))
    requires
        old(k).wf(),
    ensures
        final(k).wf(),
        *final(k) == (Kernel { user_trap_entry: true, ..*old(k) }),
        r.0 == spec_satp_token(
            old(k).task_manager.tasks@[old(k).task_manager.current_task as int]
                .memory_set.page_table.spec_root_ppn(),
        ),
        r.1 == TRAP_CONTEXT,
    {
    set_user_trap_entry(k);
    let user_satp = k.current_user_token();
    (user_satp, TRAP_CONTEXT)
}

/// Dispatch one trap reported with `cause` and auxiliary value
/// `stval`, then prepare the return to whatever task is then current.
/// A fatal condition (unsupported trap or syscall, bad file
/// descriptor, untranslatable buffer, no Ready task left) is returned
/// as the error the kernel stops with.
pub fn trap_handler(k: &mut Kernel, cause: TrapCause, stval: u64) -> (r: Result<
    (),
    KernelError,
>)
    requires
        old(k).wf(),
        old(k).task_manager.spec_status(old(k).task_manager.current_task as int) is Running,
        spec_time_ms(old(k).clock) < 0x8000_0000_0000_0000,
        old(k).clock <= u64::MAX - CLOCK_FREQ / TICKS_PER_SEC,
        cause is UserEnvCall && old(k).task_manager.tasks@[old(k).task_manager.current_task as int].trap_cx.x@[REG_A7 as int] == SYSCALL_WRITE ==> old(k).console@.len() + old(k).task_manager.tasks@[old(k).task_manager.current_task as int].trap_cx.x@[REG_A2 as int] <= usize::MAX && old(k).task_manager.tasks@[old(k).task_manager.current_task as int].trap_cx.x@[REG_A2 as int]
            < 0x8000_0000_0000_0000,
    ensures
        final(k).wf(),
        final(k).clock == old(k).clock,
        final(k).task_manager.num_app == old(k).task_manager.num_app,
        // a task once Exited is never anything else again
        forall|i: int|
            0 <= i < old(k).task_manager.num_app && old(k).task_manager.spec_status(i)
                is Exited ==> final(k).task_manager.spec_status(i) is Exited,
        // on a successful dispatch the vector points back at the
        // trampoline and some task is Running
        r is Ok ==> final(k).user_trap_entry && final(k).task_manager.spec_status(
            final(k).task_manager.current_task as int,
        ) is Running,
        // memory faults and illegal instructions kill the offending
        // task and never the kernel: fatal only when nothing is Ready
        (cause is StoreFault || cause is StorePageFault || cause is LoadFault
            || cause is LoadPageFault || cause is IllegalInstruction) ==> {
            &&& final(k).task_manager.spec_status(
                old(k).task_manager.current_task as int,
            ) is Exited
            &&& final(k).console == old(k).console
            &&& (r is Err <==> (forall|j: int|
                0 <= j < old(k).task_manager.num_app && j != old(k).task_manager.current_task
                    ==> !((#[trigger] old(k).task_manager.spec_status(j)) is Ready)))
            &&& (r is Err ==> r == Err::<(), KernelError>(KernelError::NoReadyTask))
            &&& (r is Ok ==> final(k).task_manager.current_task != old(k).task_manager.current_task)
        },
        // the timer tick rearms the timer and passes the processor on
        cause is SupervisorTimer ==> {
            &&& r is Ok
            &&& final(k).timer_deadline == old(k).clock + CLOCK_FREQ / TICKS_PER_SEC
            &&& final(k).console == old(k).console
            &&& ((forall|j: int|
                0 <= j < old(k).task_manager.num_app && j != old(k).task_manager.current_task
                    ==> (#[trigger] old(k).task_manager.spec_status(j)) is Ready) ==> final(k).task_manager.current_task as int == (old(k).task_manager.current_task + 1) % (
            old(k).task_manager.num_app as int))
        },
        // an unrecognized cause is fatal before any state changes
        cause matches TrapCause::Other(c) ==> r == Err::<(), KernelError>(
            KernelError::UnsupportedTrap,
        ) && final(k).console == old(k).console && final(k).task_manager == old(k).task_manager,
        // a write syscall emits the translated buffer to the console
        // exactly once and returns its length in a0
        (cause is UserEnvCall && old(k).task_manager.tasks@[old(k).task_manager.current_task as int].trap_cx.x@[REG_A7 as int] == SYSCALL_WRITE) ==> ({
            let cur = old(k).task_manager.current_task as int;
            let cx = old(k).task_manager.tasks@[cur].trap_cx;
            let ms = old(k).task_manager.tasks@[cur].memory_set;
            &&& (r is Ok <==> (cx.x@[REG_A0 as int] == FD_STDOUT && spec_buffer_ok(
                &ms,
                cx.x@[REG_A1 as int],
                cx.x@[REG_A2 as int],
            )))
            &&& (r is Ok ==> final(k).console@ == old(k).console@ + spec_user_bytes(
                &ms,
                cx.x@[REG_A1 as int],
                cx.x@[REG_A2 as int],
            ) && final(k).task_manager.tasks@[cur].trap_cx.x@[REG_A0 as int]
                == cx.x@[REG_A2 as int] && final(k).task_manager.tasks@[cur].trap_cx.sepc == (if cx.sepc + 4
                > u64::MAX {
                (cx.sepc + 4 - 0x1_0000_0000_0000_0000) as u64
            } else {
                (cx.sepc + 4) as u64
            }) && final(k).task_manager.current_task as int == cur)
        }),
        // a get_time syscall returns the millisecond clock in a0
        (cause is UserEnvCall && old(k).task_manager.tasks@[old(k).task_manager.current_task as int].trap_cx.x@[REG_A7 as int] == SYSCALL_GET_TIME)
            ==> r is Ok && final(k).task_manager.tasks@[old(k).task_manager.current_task as int].trap_cx.x@[REG_A0 as int] == spec_time_ms(
            old(k).clock,
        ) && final(k).console == old(k).console,
        // a yield syscall keeps the yielding task Ready (or running
        // again) and returns 0 to it
        (cause is UserEnvCall && old(k).task_manager.tasks@[old(k).task_manager.current_task as int].trap_cx.x@[REG_A7 as int] == SYSCALL_YIELD) ==> r
            is Ok && final(k).task_manager.tasks@[old(k).task_manager.current_task as int].trap_cx.x@[REG_A0 as int] == 0 && final(k).console == old(k).console,
        // an exit syscall makes the exiting task Exited forever
        (cause is UserEnvCall && old(k).task_manager.tasks@[old(k).task_manager.current_task as int].trap_cx.x@[REG_A7 as int] == SYSCALL_EXIT) ==> final(k).task_manager.spec_status(old(k).task_manager.current_task as int) is Exited && (r
            is Err <==> (forall|j: int|
            0 <= j < old(k).task_manager.num_app && j != old(k).task_manager.current_task
                ==> !((#[trigger] old(k).task_manager.spec_status(j)) is Ready))),
{
    set_kernel_trap_entry(k);
    let _ = stval;
    match cause {
        TrapCause::UserEnvCall => {
            let cur = k.task_manager.current_task;
            let mut t = k.task_manager.tasks.remove(cur);
            t.trap_cx.sepc = t.trap_cx.sepc.wrapping_add(4);
            let id = t.trap_cx.x[REG_A7];
            let a0 = t.trap_cx.x[REG_A0];
            let a1 = t.trap_cx.x[REG_A1];
            let a2 = t.trap_cx.x[REG_A2];
            k.task_manager.tasks.insert(cur, t);
            proof {
                assert(k.task_manager.tasks@ =~= old(k).task_manager.tasks@.update(
                    cur as int,
                    k.task_manager.tasks@[cur as int],
                ));
                assert(k.task_manager.wf());
                assert forall|j: int| 0 <= j < k.task_manager.num_app implies
                    #[trigger] k.task_manager.spec_status(j) == old(
                    k,
                ).task_manager.spec_status(j) by {};
                assert(k.task_manager.tasks@[cur as int].trap_cx.x@ == old(
                    k,
                ).task_manager.tasks@[cur as int].trap_cx.x@);
                assert(k.task_manager.tasks@[cur as int].memory_set == old(
                    k,
                ).task_manager.tasks@[cur as int].memory_set);
            }
            let ghost mid = *k;
            let ret = match syscall(k, id, a0, a1, a2) {
                Ok(ret) => ret,
                Err(e) => {
                    proof {
                        if id == SYSCALL_EXIT {
                            assert(mid.task_manager.current_task == cur);
                            assert(k.task_manager.spec_status(cur as int) is Exited);
                            assert forall|j: int|
                                0 <= j < old(k).task_manager.num_app && j != old(
                                k,
                            ).task_manager.current_task implies !((#[trigger] old(
                                k,
                            ).task_manager.spec_status(j)) is Ready) by {
                                assert(!(mid.task_manager.spec_status(j) is Ready));
                            };
                        }
                    }
                    return Err(e);
                },
            };
            let ghost before_store = *k;
            let mut t2 = k.task_manager.tasks.remove(cur);
            t2.trap_cx.x.set(REG_A0, ret as u64);
            k.task_manager.tasks.insert(cur, t2);
            proof {
                assert(k.task_manager.tasks@ =~= before_store.task_manager.tasks@.update(
                    cur as int,
                    k.task_manager.tasks@[cur as int],
                ));
                assert(k.task_manager.wf());
                assert forall|j: int| 0 <= j < k.task_manager.num_app implies
                    #[trigger] k.task_manager.spec_status(j)
                    == before_store.task_manager.spec_status(j) by {};
                assert(k.task_manager.current_task == before_store.task_manager.current_task);
                assert(k.task_manager.tasks@[cur as int].trap_cx.sepc
                    == before_store.task_manager.tasks@[cur as int].trap_cx.sepc);
                assert(k.task_manager.tasks@[cur as int].trap_cx.x@[REG_A0 as int] == (
                ret as u64));
                if id == SYSCALL_WRITE {
                    assert(ret as u64 == a2) by {
                        assert(ret == a2 as i64);
                    };
                }
                if id == SYSCALL_GET_TIME {
                    assert(ret as u64 == spec_time_ms(old(k).clock)) by {
                        assert(ret == spec_time_ms(old(k).clock) as i64);
                    };
                }
                if id == SYSCALL_EXIT {
                    assert(mid.task_manager.current_task == cur);
                    assert(k.task_manager.spec_status(cur as int) is Exited);
                    // the dispatch succeeded, so some other task was Ready
                    assert(exists|j: int|
                        0 <= j < mid.task_manager.num_app && j != cur && (
                        #[trigger] mid.task_manager.spec_status(j)) is Ready);
                    let jw = choose|j: int|
                        0 <= j < mid.task_manager.num_app && j != cur && (
                        #[trigger] mid.task_manager.spec_status(j)) is Ready;
                    assert(old(k).task_manager.spec_status(jw) is Ready);
                }
            }
        },
        TrapCause::StoreFault | TrapCause::StorePageFault | TrapCause::LoadFault
            | TrapCause::LoadPageFault | TrapCause::IllegalInstruction => {
            // the application misbehaved; it is terminated and the
            // kernel carries on with the next Ready task
            match exit_current_and_run_next(&mut k.task_manager) {
                Ok(_) => {},
                Err(_) => {
                    return Err(KernelError::NoReadyTask);
                },
            }
        },
        TrapCause::SupervisorTimer => {
            set_next_trigger(k);
            match suspend_current_and_run_next(&mut k.task_manager) {
                Ok(_) => {},
                Err(_) => {
                    proof {
                        assert(false);
                    }
                },
            }
        },
        TrapCause::Other(_) => {
            return Err(KernelError::UnsupportedTrap);
        },
    }
    let _ = trap_return(k);
    Ok(())
}

} // verus!
