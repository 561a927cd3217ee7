//! The kernel's whole state: the frame pool, kernel address space and
//! task manager as explicitly constructed services, plus the
//! modelled machine state (counter, armed timer, trap vector selector,
//! console output).
use vstd::prelude::*;

use crate::address::PhysAddr;
use crate::config::PAGE_SIZE;
use crate::error::KernelError;
use crate::frame_allocator::{alloc_wf, free_frames, init_frame_allocator, StackFrameAllocator};
use crate::config::{TRAMPOLINE_VPN, VPN_LIMIT};
use crate::memory_set::{
    image_wf, layout_wf, lemma_from_image_frames_nonneg, spec_kernel_sections, spec_mmio_cover,
    spec_new_kernel_frames, spec_sections_cover, AppImage, KernelLayout, MemorySet,
};
use crate::page_table::spec_satp_token;
use crate::task::{
    spec_kstack_bottom_vpn, spec_kstack_top_vpn, spec_task_frames, TaskControlBlock, TaskManager,
    TaskStatus,
};

verus! {

/// Frames the boot-time pool holds: the range between the end of the
/// kernel image and the end of usable physical memory, in pages.
pub open spec fn spec_pool_frames(l: &KernelLayout) -> int {
    l.memory_end / PAGE_SIZE - l.ekernel / PAGE_SIZE
}

/// A generous upper bound on the frames creating the first `n` tasks
/// consumes.
pub open spec fn spec_tasks_frames(images: Seq<AppImage>, n: int) -> int
    decreases n,
{
    if n <= 0 {
        0
    } else {
        spec_tasks_frames(images, n - 1) + spec_task_frames(&images[n - 1])
    }
}

/// A generous upper bound on the frames the whole boot consumes; a
/// pool larger than this cannot run dry.
pub open spec fn spec_boot_frames(l: &KernelLayout, images: Seq<AppImage>) -> int {
    spec_new_kernel_frames(l) + spec_tasks_frames(images, images.len() as int)
}

/// With well-formed images, the running task budget grows.
proof fn lemma_tasks_frames_mono(images: Seq<AppImage>, i: int, n: int)
    requires
        0 <= i <= n <= images.len(),
        forall|j: int| 0 <= j < images.len() ==> image_wf(#[trigger] &images[j]),
    ensures
        spec_tasks_frames(images, i) <= spec_tasks_frames(images, n),
    decreases n,
{
    if i < n {
        lemma_tasks_frames_mono(images, i, n - 1);
        lemma_from_image_frames_nonneg(&images[n - 1]);
    }
}

/// `w` lies in the kernel stack of one of the first `n` tasks.
pub open spec fn spec_kstacks_cover(n: int, w: u64) -> bool {
    exists|id: int|
        0 <= id < n && spec_kstack_bottom_vpn(id as u64) <= w < spec_kstack_top_vpn(
            #[trigger] (id as u64),
        )
}

pub struct Kernel {
    /// The physical frame pool.
    pub frame_allocator: StackFrameAllocator,
    /// The kernel's own address space, shared by every task when it
    /// runs kernel-side code.
    pub kernel_space: MemorySet,
    /// The tasks and the index of the running one.
    pub task_manager: TaskManager,
    /// Last observed value of the machine's monotonic counter.
    pub clock: u64,
    /// The armed deadline of the preemption timer.
    pub timer_deadline: u64,
    /// Every byte ever emitted to the console primitive, in order.
    pub console: Vec<u8>,
    /// True when the trap vector points at the shared trampoline (user
    /// traps land in the kernel correctly); false while kernel code
    /// runs, where a trap is fatal.
    pub user_trap_entry: bool,
    /// Whether the timer interrupt has been switched on.
    pub timer_interrupt_enabled: bool,
}

impl Kernel {
    pub open spec fn wf(&self) -> bool {
        &&& alloc_wf(self.frame_allocator@)
        &&& self.kernel_space.wf()
        &&& self.task_manager.wf()
    }

    /// Boot: build the frame pool over the free physical range, the
    /// kernel address space, and one Ready task per application image.
    pub fn new(
        layout: &KernelLayout,
        images: &Vec<AppImage>,
        trap_handler_va: u64,
        trap_return_va: u64,
    ) -> (r: Result<Kernel, KernelError>)
        requires
            layout_wf(layout),
            0 < images@.len() <= 0x10000,
            forall|i: int| 0 <= i < images@.len() ==> image_wf(#[trigger] &images@[i]),
        ensures
            spec_pool_frames(layout) > spec_boot_frames(layout, images@) ==> r is Ok,
            match r {
                Ok(k) => {
                    &&& k.wf()
                    &&& k.task_manager.num_app == images@.len()
                    &&& k.task_manager.current_task == 0
                    &&& forall|i: int|
                        0 <= i < images@.len() ==> (#[trigger] k.task_manager.spec_status(i))
                            is Ready
                    &&& forall|i: int|
                        0 <= i < images@.len() ==> (
                        #[trigger] k.task_manager.tasks@[i]).trap_cx.sepc == images@[i].entry
                    &&& forall|i: int|
                        0 <= i < images@.len() ==> (
                        #[trigger] k.task_manager.tasks@[i]).trap_cx.kernel_satp
                            == spec_satp_token(k.kernel_space.page_table.spec_root_ppn())
                    &&& k.console@.len() == 0
                    &&& k.clock == 0
                    &&& !k.user_trap_entry
                    &&& !k.timer_interrupt_enabled
                },
                Err(e) => e == KernelError::OutOfFrames,
            },
    {
        let mut frame_allocator = StackFrameAllocator::new();
        proof {
            vstd::arithmetic::div_mod::lemma_div_is_ordered(
                layout.ekernel as int,
                layout.memory_end as int,
                PAGE_SIZE as int,
            );
            assert((layout.ekernel + PAGE_SIZE - 1) / (PAGE_SIZE as int) == layout.ekernel as int
                / (PAGE_SIZE as int)) by {
                vstd::arithmetic::div_mod::lemma_fundamental_div_mod(
                    layout.ekernel as int,
                    PAGE_SIZE as int,
                );
                vstd::arithmetic::div_mod::lemma_hoist_over_denominator(
                    layout.ekernel as int,
                    (PAGE_SIZE - 1) as int,
                    PAGE_SIZE as nat,
                );
                assert((PAGE_SIZE - 1) as int / (PAGE_SIZE as int) == 0);
            };
        }
        init_frame_allocator(
            &mut frame_allocator,
            PhysAddr(layout.ekernel),
            PhysAddr(layout.memory_end),
        );
        proof {
            assert(free_frames(frame_allocator@) == spec_pool_frames(layout));
        }
        let mut kernel_space = match MemorySet::new_kernel(&mut frame_allocator, layout) {
            Ok(ms) => ms,
            Err(e) => {
                proof {
                    // the pool ran dry while the kernel space was built,
                    // so it was no larger than the boot budget
                    assert(free_frames(frame_allocator@) == 0);
                    lemma_tasks_frames_mono(images@, 0, images@.len() as int);
                    assert(spec_pool_frames(layout) <= spec_boot_frames(layout, images@));
                }
                return Err(e);
            },
        };
        let ghost kernel_root = kernel_space.page_table.spec_root_ppn();
        let n = images.len();
        let mut tasks: Vec<TaskControlBlock> = Vec::new();
        let mut i: usize = 0;
        while i < n
            invariant
                alloc_wf(frame_allocator@),
                kernel_space.wf(),
                kernel_space.page_table.spec_root_ppn() == kernel_root,
                n == images@.len(),
                0 < n <= 0x10000,
                i <= n,
                tasks@.len() == i,
                forall|i2: int| 0 <= i2 < images@.len() ==> image_wf(#[trigger] &images@[i2]),
                layout_wf(layout),
                forall|j: int| 0 <= j < i ==> (#[trigger] tasks@[j]).wf(),
                forall|j: int|
                    0 <= j < i ==> (#[trigger] tasks@[j]).task_status is Ready,
                forall|j: int|
                    0 <= j < i ==> (#[trigger] tasks@[j]).trap_cx.sepc == images@[j].entry,
                forall|j: int|
                    0 <= j < i ==> (#[trigger] tasks@[j]).trap_cx.kernel_satp == spec_satp_token(
                        kernel_root,
                    ),
                i <= 0x10000,
                free_frames(frame_allocator@) + spec_new_kernel_frames(layout)
                    + spec_tasks_frames(images@, i as int) >= spec_pool_frames(layout),
                forall|w: u64|
                    w < VPN_LIMIT && (#[trigger] kernel_space.page_table.spec_mapping(w))
                        is Some ==> w == TRAMPOLINE_VPN || spec_sections_cover(
                        spec_kernel_sections(layout),
                        5,
                        w,
                    ) || spec_mmio_cover(layout.mmio@, layout.mmio@.len() as int, w)
                        || spec_kstacks_cover(i as int, w),
            decreases n - i,
        {
            let ghost ks_before = kernel_space;
            let tcb = match TaskControlBlock::new(
                &mut frame_allocator,
                &mut kernel_space,
                &images[i],
                i as u64,
                PhysAddr(layout.strampoline),
                trap_handler_va,
                trap_return_va,
            ) {
                Ok(tcb) => tcb,
                Err(e) => {
                    proof {
                        if e == KernelError::AlreadyMapped {
                            let w = choose|w: u64|
                                spec_kstack_bottom_vpn(i as u64) <= w < spec_kstack_top_vpn(
                                    i as u64,
                                ) && (#[trigger] ks_before.page_table.spec_mapping(w)) is Some;
                            // the new stack pages cannot already be
                            // mapped: they sit above everything the kernel
                            // space holds so far
                            assert(w < TRAMPOLINE_VPN);
                            assert(0x7fd0000 <= w < VPN_LIMIT);
                            if spec_sections_cover(spec_kernel_sections(layout), 5, w) {
                                let kk = choose|k: int|
                                    0 <= k < 5 && (#[trigger] spec_kernel_sections(
                                        layout,
                                    )[k]).0 / crate::config::PAGE_SIZE <= w
                                        < spec_kernel_sections(layout)[k].1
                                        / crate::config::PAGE_SIZE;
                                assert(spec_kernel_sections(layout)[kk].1
                                    <= layout.memory_end);
                                vstd::arithmetic::div_mod::lemma_div_is_ordered(
                                    spec_kernel_sections(layout)[kk].1 as int,
                                    0x10_0000_0000,
                                    PAGE_SIZE as int,
                                );
                            }
                            if spec_mmio_cover(layout.mmio@, layout.mmio@.len() as int, w) {
                                let kk = choose|k: int|
                                    0 <= k < layout.mmio@.len() && (
                                    #[trigger] layout.mmio@[k]).0 / crate::config::PAGE_SIZE
                                        <= w < (layout.mmio@[k].0 + layout.mmio@[k].1) / (
                                    crate::config::PAGE_SIZE as int);
                                vstd::arithmetic::div_mod::lemma_div_is_ordered(
                                    (layout.mmio@[kk].0 + layout.mmio@[kk].1) as int,
                                    0x10_0000_0000,
                                    PAGE_SIZE as int,
                                );
                            }
                            if spec_kstacks_cover(i as int, w) {
                                let id = choose|id: int|
                                    0 <= id < i && spec_kstack_bottom_vpn(id as u64) <= w
                                        < spec_kstack_top_vpn(#[trigger] (id as u64));
                                assert(spec_kstack_bottom_vpn(id as u64) >= 0x7ffffff - 3 * i
                                    + 1);
                            }
                            assert(false);
                        }
                        // the creation failed for want of frames, so the
                        // pool was no larger than the boot budget
                        assert(e == KernelError::OutOfFrames);
                        assert(free_frames(frame_allocator@) == 0);
                        assert(spec_tasks_frames(images@, i as int + 1) == spec_tasks_frames(
                            images@,
                            i as int,
                        ) + spec_task_frames(&images@[i as int]));
                        lemma_tasks_frames_mono(images@, i as int + 1, images@.len() as int);
                        assert(spec_pool_frames(layout) <= spec_boot_frames(layout, images@));
                    }
                    return Err(e);
                },
            };
            proof {
                assert(spec_tasks_frames(images@, i as int + 1) == spec_tasks_frames(
                    images@,
                    i as int,
                ) + spec_task_frames(&images@[i as int]));
                assert forall|w: u64|
                    w < VPN_LIMIT && (#[trigger] kernel_space.page_table.spec_mapping(w))
                        is Some implies w == TRAMPOLINE_VPN || spec_sections_cover(
                    spec_kernel_sections(layout),
                    5,
                    w,
                ) || spec_mmio_cover(layout.mmio@, layout.mmio@.len() as int, w)
                    || spec_kstacks_cover(i as int + 1, w) by {
                    if spec_kstack_bottom_vpn(i as u64) <= w < spec_kstack_top_vpn(i as u64) {
                        assert(spec_kstacks_cover(i as int + 1, w)) by {
                            assert(0 <= i < i + 1 && spec_kstack_bottom_vpn(i as u64) <= w
                                < spec_kstack_top_vpn(#[trigger] ((i as int) as u64)));
                        };
                    } else {
                        assert(kernel_space.page_table.spec_mapping(w)
                            == ks_before.page_table.spec_mapping(w));
                        if spec_kstacks_cover(i as int, w) {
                            let id = choose|id: int|
                                0 <= id < i && spec_kstack_bottom_vpn(id as u64) <= w
                                    < spec_kstack_top_vpn(#[trigger] (id as u64));
                            assert(0 <= id < i + 1 && spec_kstack_bottom_vpn(id as u64) <= w
                                < spec_kstack_top_vpn(#[trigger] (id as u64)));
                        }
                    }
                };
            }
            tasks.push(tcb);
            i = i + 1;
        }
        let task_manager = TaskManager { num_app: n, tasks, current_task: 0 };
        Ok(
            Kernel {
                frame_allocator,
                kernel_space,
                task_manager,
                clock: 0,
                timer_deadline: 0,
                console: Vec::new(),
                user_trap_entry: false,
                timer_interrupt_enabled: false,
            },
        )
    }

    /// The address-space token of the running task.
    pub fn current_user_token(&self) -> (r: u64)
        requires
            self.wf(),
        ensures
            r == spec_satp_token(
                self.task_manager.tasks@[self.task_manager.current_task as int]
                    .memory_set.page_table.spec_root_ppn(),
            ),
    {
        self.task_manager.get_current_token()
    }

    /// Dispatch the very first task.
    pub fn run_first_task(&mut self) -> (r: Result<usize, KernelError>)
        requires
            old(self).wf(),
            old(self).task_manager.spec_status(0) is Ready,
            forall|i: int|
                0 <= i < old(self).task_manager.num_app ==> !((
                #[trigger] old(self).task_manager.spec_status(i)) is Running),
        ensures
            final(self).wf(),
            r == Ok::<usize, KernelError>(0usize),
            final(self).task_manager.current_task == 0,
            final(self).task_manager.spec_status(0) is Running,
            final(self).console == old(self).console,
    {
        self.task_manager.run_first_task()
    }
}

} // verus!
