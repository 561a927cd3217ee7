//! The application side of the syscall ABI.
//!
//! An application requests a syscall by placing the id in one fixed
//! register and up to three arguments in three more, then trapping into
//! the kernel. These helpers build exactly that register assignment;
//! the numeric ids are a fixed wire contract shared with the kernel.
use vstd::prelude::*;

use crate::syscall::{SYSCALL_EXIT, SYSCALL_GET_TIME, SYSCALL_WRITE, SYSCALL_YIELD};

verus! {

/// The register assignment of one syscall request: the id (register
/// a7) and the three argument registers a0..a2.
#[derive(Clone, Copy, PartialEq, Eq, Structural, Debug)]
pub struct SyscallRequest {
    pub id: u64,
    pub arg0: u64,
    pub arg1: u64,
    pub arg2: u64,
}

/// `write(fd, buf, len)`: emit `len` bytes at user address `buf` to
/// descriptor `fd`.
pub fn write(fd: u64, buf: u64, len: u64) -> (r: SyscallRequest)
    ensures
        r == (SyscallRequest { id: SYSCALL_WRITE, arg0: fd, arg1: buf, arg2: len }),
{
    SyscallRequest { id: SYSCALL_WRITE, arg0: fd, arg1: buf, arg2: len }
}

/// `exit(code)`: terminate the calling task.
pub fn exit(exit_code: u64) -> (r: SyscallRequest)
    ensures
        r == (SyscallRequest { id: SYSCALL_EXIT, arg0: exit_code, arg1: 0, arg2: 0 }),
{
    SyscallRequest { id: SYSCALL_EXIT, arg0: exit_code, arg1: 0, arg2: 0 }
}

/// `yield()`: give up the processor to the next Ready task.
pub fn yield_() -> (r: SyscallRequest)
    ensures
        r == (SyscallRequest { id: SYSCALL_YIELD, arg0: 0, arg1: 0, arg2: 0 }),
{
    SyscallRequest { id: SYSCALL_YIELD, arg0: 0, arg1: 0, arg2: 0 }
}

/// `get_time()`: read the elapsed milliseconds since boot.
pub fn get_time() -> (r: SyscallRequest)
    ensures
        r == (SyscallRequest { id: SYSCALL_GET_TIME, arg0: 0, arg1: 0, arg2: 0 }),
{
    SyscallRequest { id: SYSCALL_GET_TIME, arg0: 0, arg1: 0, arg2: 0 }
}

} // verus!
