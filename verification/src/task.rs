//! Task control blocks and the round-robin scheduler.
//!
//! A task is created once per embedded application, owns its address
//! space and saved contexts, and moves through
//! `Ready -> Running -> Ready | Exited`; `Exited` is terminal. The
//! scheduler scans task indices starting right after the current one,
//! wrapping around, and dispatches the first `Ready` task it finds.
use vstd::prelude::*;

use crate::address::{PhysAddr, PhysPageNum, VirtAddr, VA_BOUND};
use crate::config::{
    kernel_stack_position, KERNEL_STACK_SIZE, PAGE_SIZE, TRAP_CONTEXT_VPN, USER_STACK_SIZE,
};
use crate::error::KernelError;
use crate::frame_allocator::{alloc_wf, free_frames, StackFrameAllocator};
use crate::memory_set::{
    image_wf, spec_from_image_frames, spec_max_end_vpn, spec_seg_end_vpn, spec_seg_page,
    spec_seg_start_vpn, AppImage, MemorySet, MAP_PERM_R, MAP_PERM_W,
};
use crate::page_table::{spec_satp_token, spec_with_valid};
use crate::task::context::TaskContext;
use crate::trap::context::{TrapContext, REG_SP, SSTATUS_USER};

pub mod context;

verus! {

/// Lifecycle state of a task.
#[derive(Clone, Copy, PartialEq, Eq, Structural, Debug)]
pub enum TaskStatus {
    UnInit,
    Ready,
    Running,
    Exited,
}

/// One schedulable unit: its state, saved kernel context, address
/// space, the frame of its trap-context page, and its size accounting.
pub struct TaskControlBlock {
    pub task_status: TaskStatus,
    pub task_cx: TaskContext,
    pub memory_set: MemorySet,
    pub trap_cx: TrapContext,
    pub trap_cx_ppn: PhysPageNum,
    pub base_size: u64,
}

impl TaskControlBlock {
    pub open spec fn wf(&self) -> bool {
        &&& self.memory_set.wf()
        &&& self.trap_cx.wf()
        &&& self.task_cx.wf()
    }

    /// The address-space token of the task.
    pub fn get_user_token(&self) -> (r: u64)
        requires
            self.wf(),
        ensures
            r == spec_satp_token(self.memory_set.page_table.spec_root_ppn()),
    {
        self.memory_set.token()
    }

    /// Build the task for application `app_id` from its image: its
    /// address space, a dedicated kernel stack in the kernel address
    /// space, the saved context that resumes at the trap-return entry,
    /// and the initial trap context.
    pub fn new(
        a: &mut StackFrameAllocator,
        kernel_space: &mut MemorySet,
        image: &AppImage,
        app_id: u64,
        strampoline: PhysAddr,
        trap_handler_va: u64,
        trap_return_va: u64,
    ) -> (r: Result<TaskControlBlock, KernelError>)
        requires
            alloc_wf(old(a)@),
            old(kernel_space).wf(),
            image_wf(image),
            app_id < 0x10000,
            strampoline.0 % PAGE_SIZE == 0,
            strampoline.0 < crate::address::PA_BOUND,
        ensures
            alloc_wf(final(a)@),
            final(a)@.end == old(a)@.end,
            final(kernel_space).wf(),
            final(kernel_space).page_table.spec_root_ppn() == old(
                kernel_space,
            ).page_table.spec_root_ppn(),
            match r {
                Ok(tcb) => {
                    &&& tcb.wf()
                    &&& tcb.task_status is Ready
                    &&& tcb.base_size == (spec_max_end_vpn(image) + 1) * PAGE_SIZE
                        + USER_STACK_SIZE
                    &&& tcb.task_cx.ra == trap_return_va
                    &&& tcb.task_cx.sp == crate::config::TRAMPOLINE - app_id * (KERNEL_STACK_SIZE
                        + PAGE_SIZE)
                    &&& forall|i: int| 0 <= i < 12 ==> tcb.task_cx.s@[i] == 0
                    &&& tcb.trap_cx.sepc == image.entry
                    &&& tcb.trap_cx.x@[REG_SP as int] == tcb.base_size
                    &&& forall|i: int| 0 <= i < 32 && i != REG_SP ==> tcb.trap_cx.x@[i] == 0
                    &&& tcb.trap_cx.sstatus == SSTATUS_USER
                    &&& tcb.trap_cx.kernel_satp == spec_satp_token(
                        old(kernel_space).page_table.spec_root_ppn(),
                    )
                    &&& tcb.trap_cx.kernel_sp == tcb.task_cx.sp
                    &&& tcb.trap_cx.trap_handler == trap_handler_va
                    &&& tcb.memory_set.page_table.spec_mapping(TRAP_CONTEXT_VPN) is Some
                    &&& tcb.trap_cx_ppn.0 == tcb.memory_set.page_table.spec_mapping(
                        TRAP_CONTEXT_VPN,
                    ).unwrap().spec_ppn()
                    &&& forall|i: int, p: int|
                        #![trigger tcb.memory_set.spec_frame_at(((spec_seg_start_vpn(&image.segments@[i]) + p) as u64)), image.segments@[i]]
                        0 <= i < image.segments@.len() && 0 <= p < spec_seg_end_vpn(
                            &image.segments@[i],
                        ) - spec_seg_start_vpn(&image.segments@[i])
                            ==> tcb.memory_set.spec_frame_at(
                            ((spec_seg_start_vpn(&image.segments@[i]) + p) as u64),
                        ) == Some(spec_seg_page(&image.segments@[i], p))
                    &&& tcb.memory_set.page_table.spec_mapping(
                        (spec_max_end_vpn(image) as u64),
                    ) is None
                },
                Err(e) => e == KernelError::OutOfFrames || e == KernelError::AlreadyMapped,
            },
            forall|w: u64|
                w < crate::config::VPN_LIMIT && !(spec_kstack_bottom_vpn(app_id) <= w
                    < spec_kstack_top_vpn(app_id)) ==> final(kernel_space).page_table.spec_mapping(
                    w,
                ) == old(kernel_space).page_table.spec_mapping(w),
            r is Ok ==> forall|w: u64|
                spec_kstack_bottom_vpn(app_id) <= w < spec_kstack_top_vpn(app_id) ==> ((
                #[trigger] final(kernel_space).page_table.spec_mapping(w)) matches Some(pte)
                    && pte.spec_flags() == spec_with_valid(MAP_PERM_R | MAP_PERM_W)),
            r == Err::<TaskControlBlock, KernelError>(KernelError::AlreadyMapped) ==> exists|
                w: u64,
            |
                spec_kstack_bottom_vpn(app_id) <= w < spec_kstack_top_vpn(app_id) && (
                #[trigger] old(kernel_space).page_table.spec_mapping(w)) is Some,
            r == Err::<TaskControlBlock, KernelError>(KernelError::OutOfFrames) ==> free_frames(
                final(a)@,
            ) == 0,
            free_frames(final(a)@) + spec_task_frames(image) >= free_frames(old(a)@),
    {
        let (memory_set, user_sp, entry_point) = match MemorySet::from_image(
            a,
            image,
            strampoline,
        ) {
            Ok(t) => t,
            Err(e) => {
                return Err(e);
            },
        };
        let trap_cx_ppn = match memory_set.translate(crate::address::VirtPageNum(TRAP_CONTEXT_VPN))
        {
            Some(pte) => pte.ppn(),
            None => {
                proof {
                    assert(false);
                }
                unreached()
            },
        };
        let (kernel_stack_bottom, kernel_stack_top) = kernel_stack_position(app_id);
        proof {
            let m = VA_BOUND as int;
            let low_top = 0x7f_ffff_f000 - app_id * 0x3000;
            assert(kernel_stack_top == m * 0x1ffffff + low_top);
            vstd::arithmetic::div_mod::lemma_mod_multiples_vanish(0x1ffffff, low_top, m);
            vstd::arithmetic::div_mod::lemma_small_mod(low_top as nat, m as nat);
            assert(kernel_stack_top as int % m == low_top);
            let low_bottom = low_top - KERNEL_STACK_SIZE;
            assert(kernel_stack_bottom == m * 0x1ffffff + low_bottom);
            vstd::arithmetic::div_mod::lemma_mod_multiples_vanish(0x1ffffff, low_bottom, m);
            vstd::arithmetic::div_mod::lemma_small_mod(low_bottom as nat, m as nat);
            assert(kernel_stack_bottom as int % m == low_bottom);
        }
        let bottom_va: VirtAddr = VirtAddr::from(kernel_stack_bottom);
        let top_va: VirtAddr = VirtAddr::from(kernel_stack_top);
        proof {
            let ps = PAGE_SIZE as int;
            assert(bottom_va.0 == 0x1000 * spec_kstack_bottom_vpn(app_id));
            assert(top_va.0 == 0x1000 * spec_kstack_top_vpn(app_id));
            assert(bottom_va.0 as int / ps == spec_kstack_bottom_vpn(app_id)) by {
                vstd::arithmetic::div_mod::lemma_div_multiples_vanish(
                    spec_kstack_bottom_vpn(app_id),
                    ps,
                );
            };
            assert((top_va.0 + PAGE_SIZE - 1) / ps == spec_kstack_top_vpn(app_id)) by {
                vstd::arithmetic::div_mod::lemma_div_multiples_vanish(
                    spec_kstack_top_vpn(app_id),
                    ps,
                );
                vstd::arithmetic::div_mod::lemma_hoist_over_denominator(
                    top_va.0 as int,
                    (PAGE_SIZE - 1) as int,
                    PAGE_SIZE as nat,
                );
                assert((PAGE_SIZE - 1) as int / ps == 0);
            };
        }
        match kernel_space.insert_framed_area(a, bottom_va, top_va, MAP_PERM_R | MAP_PERM_W) {
            Ok(()) => {},
            Err(e) => {
                return Err(e);
            },
        }
        let task_cx = TaskContext::goto_trap_return(kernel_stack_top, trap_return_va);
        let kernel_token = kernel_space.token();
        let trap_cx = TrapContext::app_init_context(
            entry_point,
            user_sp,
            kernel_token,
            kernel_stack_top,
            trap_handler_va,
        );
        Ok(
            TaskControlBlock {
                task_status: TaskStatus::Ready,
                task_cx,
                memory_set,
                trap_cx,
                trap_cx_ppn,
                base_size: user_sp,
            },
        )
    }
}

/// A generous upper bound on the frames creating one task consumes:
/// its address space plus the two kernel-stack pages.
pub open spec fn spec_task_frames(img: &AppImage) -> int {
    spec_from_image_frames(img) + 6
}

/// First page of the kernel stack of task `app_id` in the kernel
/// address space (in the canonical low 39 bits).
pub open spec fn spec_kstack_bottom_vpn(app_id: u64) -> int {
    0x7ffffff - 3 * app_id - 2
}

/// One past the last page of that kernel stack; the page above is the
/// trampoline (for task 0) or the guard page of the previous stack.
pub open spec fn spec_kstack_top_vpn(app_id: u64) -> int {
    0x7ffffff - 3 * app_id
}

/// Position of task index `idx` in the scan that starts right after
/// `cur` and wraps modulo `n`.
pub open spec fn spec_scan_pos(cur: int, n: int, idx: int) -> int {
    (idx - cur - 1) % n
}

/// Every index is reached by stepping its scan position forward from
/// `cur + 1`.
pub proof fn lemma_scan_index(cur: int, n: int, j: int)
    requires
        0 < n,
        0 <= j < n,
    ensures
        0 <= spec_scan_pos(cur, n, j) < n,
        (cur + 1 + spec_scan_pos(cur, n, j)) % n == j,
{
    let d = spec_scan_pos(cur, n, j);
    let q = (j - cur - 1) / n;
    vstd::arithmetic::div_mod::lemma_fundamental_div_mod(j - cur - 1, n);
    vstd::arithmetic::div_mod::lemma_mod_bound(j - cur - 1, n);
    assert(cur + 1 + d == j - n * q);
    vstd::arithmetic::div_mod::lemma_mod_multiples_vanish(-q, j, n);
    assert(n * (-q) + j == j - n * q) by (nonlinear_arith);
    vstd::arithmetic::div_mod::lemma_small_mod(j as nat, n as nat);
}

/// The `k`-th index visited by the scan has scan position `k - 1`.
pub proof fn lemma_pos_of_step(cur: int, n: int, k: int)
    requires
        0 < n,
        1 <= k <= n,
        0 <= cur,
    ensures
        spec_scan_pos(cur, n, (cur + k) % n) == k - 1,
{
    let id = (cur + k) % n;
    let q = (cur + k) / n;
    vstd::arithmetic::div_mod::lemma_fundamental_div_mod(cur + k, n);
    assert(id - cur - 1 == k - 1 - n * q);
    vstd::arithmetic::div_mod::lemma_mod_multiples_vanish(-q, k - 1, n);
    assert(n * (-q) + (k - 1) == k - 1 - n * q) by (nonlinear_arith);
    vstd::arithmetic::div_mod::lemma_small_mod((k - 1) as nat, n as nat);
}

/// Everything of a task control block except its lifecycle state: the
/// saved contexts, the address space, the trap-context frame and the
/// size accounting.
pub open spec fn tcb_same_core(t1: TaskControlBlock, t2: TaskControlBlock) -> bool {
    &&& t1.task_cx == t2.task_cx
    &&& t1.memory_set == t2.memory_set
    &&& t1.trap_cx == t2.trap_cx
    &&& t1.trap_cx_ppn == t2.trap_cx_ppn
    &&& t1.base_size == t2.base_size
}

/// The ordered collection of task control blocks plus the index of the
/// task currently running.
pub struct TaskManager {
    pub num_app: usize,
    pub tasks: Vec<TaskControlBlock>,
    pub current_task: usize,
}

impl TaskManager {
    pub open spec fn wf(&self) -> bool {
        &&& self.tasks@.len() == self.num_app
        &&& 0 < self.num_app <= 0x10000
        &&& self.current_task < self.num_app
        &&& forall|i: int| 0 <= i < self.num_app ==> (#[trigger] self.tasks@[i]).wf()
        &&& forall|i: int|
            0 <= i < self.num_app && i != self.current_task ==> !((
            #[trigger] self.tasks@[i]).task_status is Running)
    }

    /// Status of task `i`.
    pub open spec fn spec_status(&self, i: int) -> TaskStatus {
        self.tasks@[i].task_status
    }

    /// Mark the running task Ready again (it yielded or was preempted).
    pub fn mark_current_suspended(&mut self)
        requires
            old(self).wf(),
            old(self).spec_status(old(self).current_task as int) is Running,
        ensures
            final(self).wf(),
            final(self).num_app == old(self).num_app,
            final(self).current_task == old(self).current_task,
            final(self).spec_status(old(self).current_task as int) is Ready,
            forall|i: int|
                0 <= i < old(self).num_app && i != old(self).current_task ==> final(self).tasks@[i] == old(self).tasks@[i],
            forall|i: int|
                0 <= i < old(self).num_app ==> tcb_same_core(
                    #[trigger] final(self).tasks@[i],
                    old(self).tasks@[i],
                ),
    {
        let cur = self.current_task;
        let mut t = self.tasks.remove(cur);
        t.task_status = TaskStatus::Ready;
        self.tasks.insert(cur, t);
        proof {
            assert(self.tasks@ =~= old(self).tasks@.update(
                cur as int,
                self.tasks@[cur as int],
            ));
        }
    }

    /// Mark the running task Exited; it will never be dispatched again.
    pub fn mark_current_exited(&mut self)
        requires
            old(self).wf(),
            old(self).spec_status(old(self).current_task as int) is Running,
        ensures
            final(self).wf(),
            final(self).num_app == old(self).num_app,
            final(self).current_task == old(self).current_task,
            final(self).spec_status(old(self).current_task as int) is Exited,
            forall|i: int|
                0 <= i < old(self).num_app && i != old(self).current_task ==> final(self).tasks@[i] == old(self).tasks@[i],
            forall|i: int|
                0 <= i < old(self).num_app ==> tcb_same_core(
                    #[trigger] final(self).tasks@[i],
                    old(self).tasks@[i],
                ),
    {
        let cur = self.current_task;
        let mut t = self.tasks.remove(cur);
        t.task_status = TaskStatus::Exited;
        self.tasks.insert(cur, t);
        proof {
            assert(self.tasks@ =~= old(self).tasks@.update(
                cur as int,
                self.tasks@[cur as int],
            ));
        }
    }

    /// The first Ready task in scan order after the current one, if any
    /// task is Ready at all.
    pub fn find_next_task(&self) -> (r: Option<usize>)
        requires
            self.wf(),
        ensures
            match r {
                Some(i) => {
                    &&& i < self.num_app
                    &&& self.spec_status(i as int) is Ready
                    &&& forall|j: int|
                        0 <= j < self.num_app && (#[trigger] self.spec_status(j)) is Ready
                            ==> spec_scan_pos(
                            self.current_task as int,
                            self.num_app as int,
                            i as int,
                        ) <= spec_scan_pos(self.current_task as int, self.num_app as int, j)
                },
                None => forall|j: int|
                    0 <= j < self.num_app ==> !((#[trigger] self.spec_status(j)) is Ready),
            },
    {
        let n = self.num_app;
        let cur = self.current_task;
        let mut k: usize = 1;
        while k <= n
            invariant
                self.wf(),
                n == self.num_app,
                cur == self.current_task,
                1 <= k <= n + 1,
                forall|k2: int|
                    1 <= k2 < k ==> !((#[trigger] self.spec_status(
                        ((cur + k2) % (n as int)),
                    )) is Ready),
            decreases n + 1 - k,
        {
            let id = (cur + k) % n;
            if matches!(self.tasks[id].task_status, TaskStatus::Ready) {
                proof {
                    lemma_pos_of_step(cur as int, n as int, k as int);
                    assert forall|j: int|
                        0 <= j < n && (#[trigger] self.spec_status(j)) is Ready implies
                        spec_scan_pos(cur as int, n as int, id as int) <= spec_scan_pos(
                        cur as int,
                        n as int,
                        j,
                    ) by {
                        lemma_scan_index(cur as int, n as int, j);
                        let p = spec_scan_pos(cur as int, n as int, j);
                        if p < k - 1 {
                            assert((cur + (p + 1)) % (n as int) == j);
                            assert(!(self.spec_status(j) is Ready));
                        }
                    };
                }
                return Some(id);
            }
            k = k + 1;
        }
        proof {
            assert forall|j: int| 0 <= j < n implies !((#[trigger] self.spec_status(j))
                is Ready) by {
                lemma_scan_index(cur as int, n as int, j);
                let p = spec_scan_pos(cur as int, n as int, j);
                assert((cur + (p + 1)) % (n as int) == j);
            };
        }
        None
    }

    /// Pick the next Ready task, mark it Running and make it current.
    /// The register-context switch itself is the machine's part; the
    /// chosen index is returned for it. Fails when no task is Ready:
    /// all work is complete or deadlocked.
    pub fn run_next_task(&mut self) -> (r: Result<usize, KernelError>)
        requires
            old(self).wf(),
            !(old(self).spec_status(old(self).current_task as int) is Running),
        ensures
            final(self).wf(),
            final(self).num_app == old(self).num_app,
            match r {
                Ok(next) => {
                    &&& next < old(self).num_app
                    &&& old(self).spec_status(next as int) is Ready
                    &&& final(self).current_task == next
                    &&& final(self).spec_status(next as int) is Running
                    &&& forall|i: int|
                        0 <= i < old(self).num_app && i != next ==> final(self).tasks@[i] == old(self).tasks@[i]
                    &&& forall|j: int|
                        0 <= j < old(self).num_app && (#[trigger] old(self).spec_status(j))
                            is Ready ==> spec_scan_pos(
                            old(self).current_task as int,
                            old(self).num_app as int,
                            next as int,
                        ) <= spec_scan_pos(
                            old(self).current_task as int,
                            old(self).num_app as int,
                            j,
                        )
                    &&& (forall|j: int|
                        0 <= j < old(self).num_app ==> (#[trigger] old(self).spec_status(j))
                            is Ready) ==> next == (old(self).current_task + 1) % (old(self).num_app as int)
                },
                Err(e) => {
                    &&& e == KernelError::NoReadyTask
                    &&& *final(self) == *old(self)
                    &&& forall|j: int|
                        0 <= j < old(self).num_app ==> !((#[trigger] old(self).spec_status(j))
                            is Ready)
                },
            },
            forall|i: int|
                0 <= i < old(self).num_app && old(self).spec_status(i) is Exited ==> final(self).spec_status(i) is Exited,
            forall|i: int|
                0 <= i < old(self).num_app ==> tcb_same_core(
                    #[trigger] final(self).tasks@[i],
                    old(self).tasks@[i],
                ),
    {
        match self.find_next_task() {
            Some(next) => {
                proof {
                    if forall|j: int|
                        0 <= j < self.num_app ==> (#[trigger] self.spec_status(j)) is Ready {
                        let n = self.num_app as int;
                        let cur = self.current_task as int;
                        let first = (cur + 1) % n;
                        lemma_pos_of_step(cur, n, 1);
                        vstd::arithmetic::div_mod::lemma_mod_bound(cur + 1, n);
                        assert(self.spec_status(first) is Ready);
                        assert(spec_scan_pos(cur, n, first) == 0);
                        lemma_scan_index(cur, n, next as int);
                        assert(spec_scan_pos(cur, n, next as int) <= spec_scan_pos(
                            cur,
                            n,
                            first,
                        ));
                        assert(next as int == (cur + 1 + spec_scan_pos(cur, n, next as int))
                            % n);
                    }
                }
                let mut t = self.tasks.remove(next);
                t.task_status = TaskStatus::Running;
                self.tasks.insert(next, t);
                self.current_task = next;
                proof {
                    assert(self.tasks@ =~= old(self).tasks@.update(
                        next as int,
                        self.tasks@[next as int],
                    ));
                }
                Ok(next)
            },
            None => Err(KernelError::NoReadyTask),
        }
    }

    /// Dispatch the very first task: task 0, which construction left
    /// Ready. The very first switch discards the boot context.
    pub fn run_first_task(&mut self) -> (r: Result<usize, KernelError>)
        requires
            old(self).wf(),
            old(self).spec_status(0) is Ready,
            forall|i: int|
                0 <= i < old(self).num_app ==> !((#[trigger] old(self).spec_status(i))
                    is Running),
        ensures
            final(self).wf(),
            final(self).num_app == old(self).num_app,
            r == Ok::<usize, KernelError>(0usize),
            final(self).current_task == 0,
            final(self).spec_status(0) is Running,
            forall|i: int|
                0 < i < old(self).num_app ==> final(self).tasks@[i] == old(self).tasks@[i],
    {
        let mut t = self.tasks.remove(0);
        t.task_status = TaskStatus::Running;
        self.tasks.insert(0, t);
        self.current_task = 0;
        proof {
            assert(self.tasks@ =~= old(self).tasks@.update(0, self.tasks@[0]));
            assert forall|i: int|
                0 <= i < self.num_app && i != 0 implies !((#[trigger] self.tasks@[i]).task_status
                is Running) by {
                assert(!(old(self).spec_status(i) is Running));
            };
        }
        let _unused = TaskContext::zero_init();
        Ok(0)
    }

    /// The address-space token of the current task.
    pub fn get_current_token(&self) -> (r: u64)
        requires
            self.wf(),
        ensures
            r == spec_satp_token(
                self.tasks@[self.current_task as int].memory_set.page_table.spec_root_ppn(),
            ),
    {
        self.tasks[self.current_task].get_user_token()
    }
}

/// Mark the current task Ready and dispatch the next Ready task.
pub fn suspend_current_and_run_next(tm: &mut TaskManager) -> (r: Result<usize, KernelError>)
    requires
        old(tm).wf(),
        old(tm).spec_status(old(tm).current_task as int) is Running,
    ensures
        final(tm).wf(),
        final(tm).num_app == old(tm).num_app,
        r is Ok,
        r matches Ok(next) ==> final(tm).current_task == next && final(tm).spec_status(
            next as int,
        ) is Running,
        // the suspended task stays Ready unless it is the one
        // redispatched at once, and only its lifecycle state changes
        final(tm).spec_status(old(tm).current_task as int) is Ready || (final(tm).current_task
            == old(tm).current_task && final(tm).spec_status(
            old(tm).current_task as int,
        ) is Running),
        forall|i: int|
            0 <= i < old(tm).num_app ==> tcb_same_core(
                #[trigger] final(tm).tasks@[i],
                old(tm).tasks@[i],
            ),
        forall|i: int|
            0 <= i < old(tm).num_app && old(tm).spec_status(i) is Exited ==> final(tm).spec_status(i) is Exited,
        (forall|j: int|
            0 <= j < old(tm).num_app && j != old(tm).current_task ==> (#[trigger] old(tm).spec_status(j)) is Ready) ==> r == Ok::<usize, KernelError>(
            (((old(tm).current_task + 1) % (old(tm).num_app as int)) as usize),
        ),
{
    let ghost cur = tm.current_task as int;
    tm.mark_current_suspended();
    let ghost mid = *tm;
    let r = tm.run_next_task();
    proof {
        if r is Err {
            assert(!(mid.spec_status(cur) is Ready));
            assert(false);
        }
        if forall|j: int|
            0 <= j < old(tm).num_app && j != cur ==> (#[trigger] old(tm).spec_status(j))
                is Ready {
            assert forall|j: int| 0 <= j < mid.num_app implies (#[trigger] mid.spec_status(j))
                is Ready by {
                if j != cur {
                    assert(old(tm).spec_status(j) is Ready);
                }
            };
            assert(mid.current_task == cur);
        }
    }
    r
}

/// Mark the current task Exited and dispatch the next Ready task; with
/// no Ready task left the kernel reports completion as fatal.
pub fn exit_current_and_run_next(tm: &mut TaskManager) -> (r: Result<usize, KernelError>)
    requires
        old(tm).wf(),
        old(tm).spec_status(old(tm).current_task as int) is Running,
    ensures
        final(tm).wf(),
        final(tm).num_app == old(tm).num_app,
        final(tm).spec_status(old(tm).current_task as int) is Exited,
        r matches Ok(next) ==> next != old(tm).current_task && final(tm).current_task == next
            && final(tm).spec_status(next as int) is Running && old(tm).spec_status(next as int)
            is Ready,
        r is Err <==> forall|j: int|
            0 <= j < old(tm).num_app && j != old(tm).current_task ==> !((#[trigger] old(tm).spec_status(j)) is Ready),
        forall|i: int|
            0 <= i < old(tm).num_app && old(tm).spec_status(i) is Exited ==> final(tm).spec_status(i) is Exited,
        forall|i: int|
            0 <= i < old(tm).num_app ==> tcb_same_core(
                #[trigger] final(tm).tasks@[i],
                old(tm).tasks@[i],
            ),
{
    let ghost cur = tm.current_task as int;
    tm.mark_current_exited();
    let ghost mid = *tm;
    let r = tm.run_next_task();
    proof {
        match r {
            Ok(next) => {
                assert(mid.spec_status(next as int) is Ready);
                assert(next != cur);
                assert(old(tm).spec_status(next as int) is Ready);
            },
            Err(_) => {
                assert forall|j: int|
                    0 <= j < old(tm).num_app && j != cur implies !((#[trigger] old(
                    tm,
                ).spec_status(j)) is Ready) by {
                    assert(!(mid.spec_status(j) is Ready));
                };
            },
        }
        if forall|j: int|
            0 <= j < old(tm).num_app && j != cur ==> !((#[trigger] old(tm).spec_status(j))
                is Ready) {
            match r {
                Ok(nx) => {
                    assert(mid.spec_status(nx as int) is Ready);
                    assert(!(old(tm).spec_status(nx as int) is Ready));
                    assert(false);
                },
                Err(_) => {},
            }
        }
    }
    r
}

/// Round-robin completeness: starting anywhere, the `n` successive scan
/// starts `cur + 1, cur + 2, ...` visit every one of the `n` task
/// indices exactly once before any repeats.
pub proof fn lemma_round_robin_complete(cur: int, n: int)
    requires
        0 < n,
        0 <= cur,
    ensures
        forall|da: int, db: int|
            #![trigger (cur + 1 + da) % n, (cur + 1 + db) % n]
            0 <= da < db < n ==> (cur + 1 + da) % n != (cur + 1 + db) % n,
        forall|i: int|
            0 <= i < n ==> 0 <= #[trigger] spec_scan_pos(cur, n, i) < n && (cur + 1
                + spec_scan_pos(cur, n, i)) % n == i,
{
    assert forall|da: int, db: int|
        #![trigger (cur + 1 + da) % n, (cur + 1 + db) % n]
        0 <= da < db < n implies (cur + 1 + da) % n != (cur + 1 + db) % n by {
        lemma_pos_of_step(cur, n, da + 1);
        lemma_pos_of_step(cur, n, db + 1);
    };
    assert forall|i: int| 0 <= i < n implies 0 <= #[trigger] spec_scan_pos(cur, n, i) < n && (
    cur + 1 + spec_scan_pos(cur, n, i)) % n == i by {
        lemma_scan_index(cur, n, i);
    };
}

} // verus!
