//! The timer: a thin service over the machine's monotonic counter.
//!
//! The counter itself is hardware; the model holds its last observed
//! value in the kernel state, advanced only by the machine harness and
//! only forwards.
use vstd::prelude::*;

use crate::config::{CLOCK_FREQ, MICRO_PER_SEC, TICKS_PER_SEC};
use crate::kernel::Kernel;

verus! {

/// Milliseconds since boot for a raw counter value.
pub open spec fn spec_time_ms(clock: u64) -> u64 {
    clock / (CLOCK_FREQ / MICRO_PER_SEC)
}

/// The raw counter.
pub fn get_time(k: &Kernel) -> (r: u64)
    ensures
        r == k.clock,
{
    k.clock
}

/// Milliseconds since boot.
pub fn get_time_ms(k: &Kernel) -> (r: u64)
    ensures
        r == spec_time_ms(k.clock),
{
    k.clock / (CLOCK_FREQ / MICRO_PER_SEC)
}

/// Arm the timer for the next preemption tick.
pub fn set_next_trigger(k: &mut Kernel)
    requires
        old(k).clock <= u64::MAX - CLOCK_FREQ / TICKS_PER_SEC,
    ensures
        final(k).timer_deadline == old(k).clock + CLOCK_FREQ / TICKS_PER_SEC,
        final(k).clock == old(k).clock,
        final(k).frame_allocator == old(k).frame_allocator,
        final(k).kernel_space == old(k).kernel_space,
        final(k).task_manager == old(k).task_manager,
        final(k).console == old(k).console,
        final(k).user_trap_entry == old(k).user_trap_entry,
        final(k).timer_interrupt_enabled == old(k).timer_interrupt_enabled,
{
    k.timer_deadline = k.clock + CLOCK_FREQ / TICKS_PER_SEC;
}

/// The machine's counter ticked forward; never backwards.
pub fn advance_clock(k: &mut Kernel, delta: u64)
    requires
        old(k).clock <= u64::MAX - delta,
    ensures
        final(k).clock == old(k).clock + delta,
        final(k).timer_deadline == old(k).timer_deadline,
        final(k).frame_allocator == old(k).frame_allocator,
        final(k).kernel_space == old(k).kernel_space,
        final(k).task_manager == old(k).task_manager,
        final(k).console == old(k).console,
        final(k).user_trap_entry == old(k).user_trap_entry,
        final(k).timer_interrupt_enabled == old(k).timer_interrupt_enabled,
{
    k.clock = k.clock + delta;
}

/// A counter that never decreases yields non-decreasing millisecond
/// readings.
pub proof fn lemma_time_monotone(c1: u64, c2: u64)
    requires
        c1 <= c2,
    ensures
        spec_time_ms(c1) <= spec_time_ms(c2),
{
    vstd::arithmetic::div_mod::lemma_div_is_ordered(
        c1 as int,
        c2 as int,
        (CLOCK_FREQ / MICRO_PER_SEC) as int,
    );
}

} // verus!
