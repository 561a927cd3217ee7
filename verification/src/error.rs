//! Kernel error values.
//!
//! A kernel on hardware stops the machine on broken invariants; here every
//! such condition is reported as a value so that callers (and the harness
//! around the library) decide how to stop.
use vstd::prelude::*;

verus! {

#[derive(Clone, Copy, PartialEq, Eq, Structural, Debug)]
pub enum KernelError {
    /// A frame was handed back that the allocator never handed out, or
    /// that was handed back already.
    FrameNotAllocated,
    /// The frame pool is exhausted.
    OutOfFrames,
    /// `map` hit a leaf entry that is already valid.
    AlreadyMapped,
    /// `unmap` hit a leaf entry that is not valid.
    NotMapped,
    /// An application image that the address-space builder cannot map.
    BadImage,
    /// A user buffer that does not translate through the page table.
    BadUserBuffer,
    /// A syscall id outside the fixed ABI.
    UnsupportedSyscall,
    /// `write` on anything but the standard-output descriptor.
    BadFileDescriptor,
    /// A trap cause the dispatcher does not recognize.
    UnsupportedTrap,
    /// A trap taken while already executing kernel code.
    TrapFromKernel,
    /// No task is Ready: all work is complete or deadlocked.
    NoReadyTask,
}

} // verus!
