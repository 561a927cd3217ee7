//! The syscall router and the individual system calls.
//!
//! The ids are a fixed wire contract shared with the applications.
//! `write` translates the caller's virtual buffer through its address
//! space and emits the bytes to the console; `exit` and `yield` hand
//! the processor to the scheduler; `get_time` reads the millisecond
//! clock.
use vstd::prelude::*;

use crate::config::PAGE_SIZE;
use crate::error::KernelError;
use crate::kernel::Kernel;
use crate::memory_set::{
    spec_buffer_ok, spec_chunk_count, spec_chunk_end, spec_chunk_start, spec_user_bytes,
    translated_byte_buffer, MemorySet,
};
use crate::task::{exit_current_and_run_next, suspend_current_and_run_next};
use crate::timer::{get_time_ms, spec_time_ms};

verus! {

/// Syscall id of `write`.
pub const SYSCALL_WRITE: u64 = 64;
/// Syscall id of `exit`.
pub const SYSCALL_EXIT: u64 = 93;
/// Syscall id of `yield`.
pub const SYSCALL_YIELD: u64 = 124;
/// Syscall id of `get_time`.
pub const SYSCALL_GET_TIME: u64 = 169;

/// The standard-output file descriptor, the only one `write` accepts.
pub const FD_STDOUT: u64 = 1;

/// The address space of the task the kernel is currently serving.
pub open spec fn spec_current_ms(k: &Kernel) -> MemorySet {
    k.task_manager.tasks@[k.task_manager.current_task as int].memory_set
}

/// Bytes already emitted for a `write` after the first `i` chunks.
pub open spec fn spec_done(ptr: u64, len: u64, i: int) -> int {
    if i == 0 {
        0
    } else {
        spec_chunk_end(ptr, len, i - 1) - ptr
    }
}

/// `write(fd, buf, len)`: translate the caller's buffer page by page
/// and emit its bytes to the console, returning the length written.
/// Only the standard-output descriptor is served; an untranslatable
/// buffer is fatal: the kernel has no way to satisfy the call.
pub fn sys_write(k: &mut Kernel, fd: u64, buf: u64, len: u64) -> (r: Result<i64, KernelError>)
    requires
        old(k).wf(),
        len < 0x8000_0000_0000_0000,
        old(k).console@.len() + len <= usize::MAX,
    ensures
        final(k).wf(),
        final(k).task_manager == old(k).task_manager,
        final(k).frame_allocator == old(k).frame_allocator,
        final(k).kernel_space == old(k).kernel_space,
        final(k).clock == old(k).clock,
        final(k).timer_deadline == old(k).timer_deadline,
        final(k).user_trap_entry == old(k).user_trap_entry,
        final(k).timer_interrupt_enabled == old(k).timer_interrupt_enabled,
        r is Ok <==> (fd == FD_STDOUT && spec_buffer_ok(&spec_current_ms(old(k)), buf, len)),
        r == Err::<i64, KernelError>(KernelError::BadFileDescriptor) <==> fd != FD_STDOUT,
        r is Ok ==> r == Ok::<i64, KernelError>(len as i64) && final(k).console@ == old(
            k,
        ).console@ + spec_user_bytes(&spec_current_ms(old(k)), buf, len),
        r is Err ==> final(k).console == old(k).console,
{
    if fd != FD_STDOUT {
        return Err(KernelError::BadFileDescriptor);
    }
    let cur = k.task_manager.current_task;
    let ghost ms = spec_current_ms(k);
    let chunks = match translated_byte_buffer(&k.task_manager.tasks[cur].memory_set, buf, len) {
        Some(chunks) => chunks,
        None => {
            return Err(KernelError::BadUserBuffer);
        },
    };
    let ghost base_len = k.console@.len() as int;
    let nchunks = chunks.len();
    let mut ci: usize = 0;
    while ci < nchunks
        invariant
            old(k).wf(),
            k.wf(),
            ms == spec_current_ms(old(k)),
            spec_buffer_ok(&ms, buf, len),
            len < 0x8000_0000_0000_0000,
            base_len == old(k).console@.len(),
            base_len + len <= usize::MAX,
            k.task_manager == old(k).task_manager,
            k.frame_allocator == old(k).frame_allocator,
            k.kernel_space == old(k).kernel_space,
            k.clock == old(k).clock,
            k.timer_deadline == old(k).timer_deadline,
            k.user_trap_entry == old(k).user_trap_entry,
            k.timer_interrupt_enabled == old(k).timer_interrupt_enabled,
            nchunks == chunks@.len(),
            ci <= nchunks,
            chunks@.len() == spec_chunk_count(buf, len),
            forall|i: int|
                0 <= i < chunks@.len() ==> (#[trigger] chunks@[i])@.len() == spec_chunk_end(
                    buf,
                    len,
                    i,
                ) - spec_chunk_start(buf, i),
            forall|i: int, j: int|
                0 <= i < chunks@.len() && 0 <= j < chunks@[i]@.len() ==> Some(
                    #[trigger] chunks@[i]@[j],
                ) == ms.spec_user_byte(((spec_chunk_start(buf, i) + j) as u64)),
            0 <= spec_done(buf, len, ci as int) <= len,
            ci < nchunks ==> spec_chunk_start(buf, ci as int) == buf + spec_done(
                buf,
                len,
                ci as int,
            ),
            ci == nchunks ==> spec_done(buf, len, ci as int) == len,
            k.console@.len() == base_len + spec_done(buf, len, ci as int),
            forall|kk: int|
                0 <= kk < spec_done(buf, len, ci as int) ==> Some(
                    #[trigger] k.console@[base_len + kk],
                ) == ms.spec_user_byte(((buf + kk) as u64)),
            forall|kk: int| 0 <= kk < base_len ==> k.console@[kk] == old(k).console@[kk],
        decreases nchunks - ci,
    {
        let ghost done = spec_done(buf, len, ci as int);
        let ghost console_before = k.console@;
        let cl = chunks[ci].len();
        let mut j: usize = 0;
        while j < cl
            invariant
                ci < chunks@.len(),
                cl == chunks@[ci as int]@.len(),
                j <= cl,
                console_before.len() + cl <= usize::MAX,
                k.wf(),
                old(k).wf(),
                k.task_manager == old(k).task_manager,
                k.frame_allocator == old(k).frame_allocator,
                k.kernel_space == old(k).kernel_space,
                k.clock == old(k).clock,
                k.timer_deadline == old(k).timer_deadline,
                k.user_trap_entry == old(k).user_trap_entry,
                k.timer_interrupt_enabled == old(k).timer_interrupt_enabled,
                k.console@ == console_before + chunks@[ci as int]@.subrange(0, j as int),
            decreases cl - j,
        {
            let b = chunks[ci][j];
            k.console.push(b);
            proof {
                assert(k.console@ =~= console_before + chunks@[ci as int]@.subrange(
                    0,
                    j + 1,
                ));
            }
            j = j + 1;
        }
        proof {
            assert(chunks@[ci as int]@.subrange(0, cl as int) =~= chunks@[ci as int]@);
            let i = ci as int;
            let done2 = spec_done(buf, len, i + 1);
            // the chunk just emitted carries exactly the bytes
            // `buf + done .. buf + done2`
            assert(done2 == done + cl) by {
                assert(spec_chunk_start(buf, i) == buf + done);
            };
            assert(done2 <= len);
            assert forall|kk: int| 0 <= kk < done2 implies Some(
                #[trigger] k.console@[base_len + kk],
            ) == ms.spec_user_byte(((buf + kk) as u64)) by {
                if kk < done {
                    assert(k.console@[base_len + kk] == console_before[base_len + kk]);
                } else {
                    let jj = kk - done;
                    assert(k.console@[base_len + kk] == chunks@[i]@[jj]);
                    assert(Some(chunks@[i]@[jj]) == ms.spec_user_byte(
                        ((spec_chunk_start(buf, i) + jj) as u64),
                    ));
                    assert(spec_chunk_start(buf, i) + jj == buf + kk);
                }
            };
            if i + 1 < nchunks {
                // the next chunk starts where this one ended
                assert(spec_chunk_start(buf, i + 1) == buf + done2) by {
                    let ps = PAGE_SIZE as int;
                    let q = (buf + len - 1) as int / ps;
                    assert(i + 1 < spec_chunk_count(buf, len));
                    assert(buf / PAGE_SIZE + i + 1 <= q);
                    vstd::arithmetic::mul::lemma_mul_inequality(
                        buf / PAGE_SIZE + i + 1,
                        q,
                        ps,
                    );
                    vstd::arithmetic::div_mod::lemma_fundamental_div_mod(
                        (buf + len - 1) as int,
                        ps,
                    );
                    assert(q * ps <= buf + len - 1);
                    assert((buf / PAGE_SIZE + i + 1) * ps <= buf + len - 1);
                };
            } else {
                // the final chunk ends exactly at the end of the buffer
                assert(done2 == len) by {
                    let ps = PAGE_SIZE as int;
                    let q = (buf + len - 1) as int / ps;
                    assert(i + 1 == spec_chunk_count(buf, len));
                    assert(buf / PAGE_SIZE + i + 1 == q + 1);
                    vstd::arithmetic::div_mod::lemma_fundamental_div_mod(
                        (buf + len - 1) as int,
                        ps,
                    );
                    assert((q + 1) * ps >= buf + len);
                };
            }
        }
        ci = ci + 1;
    }
    proof {
        assert(k.console@ =~= old(k).console@ + spec_user_bytes(&ms, buf, len)) by {
            assert forall|kk: int|
                0 <= kk < len implies k.console@[base_len + kk] == spec_user_bytes(
                &ms,
                buf,
                len,
            )[kk] by {
                assert(Some(k.console@[base_len + kk]) == ms.spec_user_byte(
                    ((buf + kk) as u64),
                ));
            };
        };
    }
    Ok(len as i64)
}


/// `exit(code)`: the current task is finished; it becomes Exited
/// forever and the next Ready task runs. The exit code is handed back
/// in the result, where the harness logs it (the kernel's own log
/// line is console output outside this model). With no Ready task
/// left, completion is reported as fatal.
pub fn sys_exit(k: &mut Kernel, exit_code: i64) -> (r: Result<i64, KernelError>)
    requires
        old(k).wf(),
        old(k).task_manager.spec_status(old(k).task_manager.current_task as int) is Running,
    ensures
        final(k).wf(),
        final(k).console == old(k).console,
        final(k).clock == old(k).clock,
        final(k).task_manager.num_app == old(k).task_manager.num_app,
        final(k).task_manager.spec_status(old(k).task_manager.current_task as int) is Exited,
        forall|i: int|
            0 <= i < old(k).task_manager.num_app && old(k).task_manager.spec_status(i)
                is Exited ==> final(k).task_manager.spec_status(i) is Exited,
        r is Err <==> (forall|j: int|
            0 <= j < old(k).task_manager.num_app && j != old(k).task_manager.current_task
                ==> !((#[trigger] old(k).task_manager.spec_status(j)) is Ready)),
        r is Err ==> r == Err::<i64, KernelError>(KernelError::NoReadyTask),
        r is Ok ==> final(k).task_manager.current_task != old(k).task_manager.current_task
            && final(k).task_manager.spec_status(
            final(k).task_manager.current_task as int,
        ) is Running,
        r is Ok ==> r == Ok::<i64, KernelError>(exit_code),
{
    match exit_current_and_run_next(&mut k.task_manager) {
        Ok(_) => Ok(exit_code),
        Err(_) => Err(KernelError::NoReadyTask),
    }
}

/// `yield()`: the current task voluntarily gives up the processor; it
/// stays Ready and runs again when its turn comes back. Returns 0 to
/// the caller.
pub fn sys_yield(k: &mut Kernel) -> (r: Result<i64, KernelError>)
    requires
        old(k).wf(),
        old(k).task_manager.spec_status(old(k).task_manager.current_task as int) is Running,
    ensures
        final(k).wf(),
        final(k).console == old(k).console,
        final(k).clock == old(k).clock,
        final(k).task_manager.num_app == old(k).task_manager.num_app,
        r == Ok::<i64, KernelError>(0i64),
        final(k).task_manager.spec_status(final(k).task_manager.current_task as int) is Running,
        // the yielding task stays Ready unless redispatched at once,
        // and only its lifecycle state changes
        final(k).task_manager.spec_status(old(k).task_manager.current_task as int) is Ready || (
        final(k).task_manager.current_task == old(k).task_manager.current_task
            && final(k).task_manager.spec_status(old(k).task_manager.current_task as int)
            is Running),
        forall|i: int|
            0 <= i < old(k).task_manager.num_app ==> crate::task::tcb_same_core(
                #[trigger] final(k).task_manager.tasks@[i],
                old(k).task_manager.tasks@[i],
            ),
        forall|i: int|
            0 <= i < old(k).task_manager.num_app && old(k).task_manager.spec_status(i)
                is Exited ==> final(k).task_manager.spec_status(i) is Exited,
{
    match suspend_current_and_run_next(&mut k.task_manager) {
        Ok(_) => Ok(0),
        Err(_) => {
            proof {
                assert(false);
            }
            Err(KernelError::NoReadyTask)
        },
    }
}

/// `get_time()`: elapsed milliseconds since boot, from the hardware
/// counter scaled by the fixed clock frequency.
pub fn sys_get_time(k: &Kernel) -> (r: i64)
    requires
        spec_time_ms(k.clock) < 0x8000_0000_0000_0000,
    ensures
        r == spec_time_ms(k.clock) as i64,
{
    get_time_ms(k) as i64
}

/// Route one syscall by id, performing it on the kernel state and
/// returning the value owed to the application. An unknown id is
/// fatal.
pub fn syscall(k: &mut Kernel, syscall_id: u64, arg0: u64, arg1: u64, arg2: u64) -> (r: Result<
    i64,
    KernelError,
>)
    requires
        old(k).wf(),
        old(k).task_manager.spec_status(old(k).task_manager.current_task as int) is Running,
        syscall_id == SYSCALL_WRITE ==> arg2 < 0x8000_0000_0000_0000 && old(k).console@.len()
            + arg2 <= usize::MAX,
        spec_time_ms(old(k).clock) < 0x8000_0000_0000_0000,
    ensures
        final(k).wf(),
        final(k).clock == old(k).clock,
        final(k).task_manager.num_app == old(k).task_manager.num_app,
        forall|i: int|
            0 <= i < old(k).task_manager.num_app && old(k).task_manager.spec_status(i)
                is Exited ==> final(k).task_manager.spec_status(i) is Exited,
        syscall_id == SYSCALL_WRITE ==> {
            &&& final(k).task_manager == old(k).task_manager
            &&& (r is Ok <==> (arg0 == FD_STDOUT && spec_buffer_ok(
                &spec_current_ms(old(k)),
                arg1,
                arg2,
            )))
            &&& (r is Ok ==> r == Ok::<i64, KernelError>(arg2 as i64) && final(k).console@
                == old(k).console@ + spec_user_bytes(&spec_current_ms(old(k)), arg1, arg2))
            &&& (r is Err ==> final(k).console == old(k).console)
        },
        syscall_id == SYSCALL_EXIT ==> {
            &&& final(k).task_manager.spec_status(
                old(k).task_manager.current_task as int,
            ) is Exited
            &&& (r is Err <==> (forall|j: int|
                0 <= j < old(k).task_manager.num_app && j != old(k).task_manager.current_task
                    ==> !((#[trigger] old(k).task_manager.spec_status(j)) is Ready)))
            &&& final(k).console == old(k).console
            &&& (r is Ok ==> final(k).task_manager.spec_status(
                final(k).task_manager.current_task as int,
            ) is Running)
            &&& (r is Ok ==> r == Ok::<i64, KernelError>(arg0 as i64))
        },
        syscall_id == SYSCALL_YIELD ==> r == Ok::<i64, KernelError>(0i64) && final(k).console
            == old(k).console && final(k).task_manager.spec_status(
            final(k).task_manager.current_task as int,
        ) is Running && (final(k).task_manager.spec_status(
            old(k).task_manager.current_task as int,
        ) is Ready || final(k).task_manager.current_task == old(k).task_manager.current_task),
        syscall_id == SYSCALL_GET_TIME ==> r == Ok::<i64, KernelError>(
            spec_time_ms(old(k).clock) as i64,
        ) && *final(k) == *old(k),
        !(syscall_id == SYSCALL_WRITE || syscall_id == SYSCALL_EXIT || syscall_id
            == SYSCALL_YIELD || syscall_id == SYSCALL_GET_TIME) ==> r == Err::<
            i64,
            KernelError,
        >(KernelError::UnsupportedSyscall) && *final(k) == *old(k),
{
    if syscall_id == SYSCALL_WRITE {
        sys_write(k, arg0, arg1, arg2)
    } else if syscall_id == SYSCALL_EXIT {
        sys_exit(k, arg0 as i64)
    } else if syscall_id == SYSCALL_YIELD {
        sys_yield(k)
    } else if syscall_id == SYSCALL_GET_TIME {
        Ok(sys_get_time(k))
    } else {
        Err(KernelError::UnsupportedSyscall)
    }
}

} // verus!
