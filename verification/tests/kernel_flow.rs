//! Whole-kernel flows: boot, syscalls through the trap dispatcher,
//! preemption, fault isolation, and the clock.
use rkernel::config::{kernel_stack_position, CLOCK_FREQ, MICRO_PER_SEC, TICKS_PER_SEC};
use rkernel::error::KernelError;
use rkernel::kernel::Kernel;
use rkernel::memory_set::{AppImage, KernelLayout, Segment, MAP_PERM_R, MAP_PERM_W, MAP_PERM_X};
use rkernel::task::TaskStatus;
use rkernel::task::context::TaskContext;
use rkernel::timer;
use rkernel::trap::context::TrapContext;
use rkernel::trap::{
    enable_timer_interrupt, init, trap_from_kernel, trap_handler, trap_return, TrapCause,
};
use rkernel::user;

fn test_layout() -> KernelLayout {
    KernelLayout {
        stext: 0x8020_0000,
        etext: 0x8020_4000,
        srodata: 0x8020_4000,
        erodata: 0x8020_6000,
        sdata: 0x8020_6000,
        edata: 0x8020_8000,
        sbss_with_stack: 0x8020_8000,
        ebss: 0x8020_a000,
        ekernel: 0x8020_a000,
        memory_end: 0x8030_0000,
        strampoline: 0x8020_0000,
        mmio: vec![(0x10_0000, 0x2000)],
    }
}

fn plain_image() -> AppImage {
    AppImage {
        entry: 0x10000,
        segments: vec![Segment {
            start_va: 0x10000,
            end_va: 0x11000,
            perm: MAP_PERM_R | MAP_PERM_X,
            data: vec![0x13, 0, 0, 0],
        }],
    }
}

fn boot(n: usize) -> Kernel {
    let images: Vec<AppImage> = (0..n).map(|_| plain_image()).collect();
    let mut k = Kernel::new(&test_layout(), &images, 0x8020_1000, 0x8020_2000).unwrap();
    init(&mut k);
    enable_timer_interrupt(&mut k);
    timer::set_next_trigger(&mut k);
    k.run_first_task().unwrap();
    k
}

fn set_syscall_regs(k: &mut Kernel, req: user::SyscallRequest) {
    let cur = k.task_manager.current_task;
    let cx = &mut k.task_manager.tasks[cur].trap_cx;
    cx.x[17] = req.id;
    cx.x[10] = req.arg0;
    cx.x[11] = req.arg1;
    cx.x[12] = req.arg2;
}

#[test]
fn boot_creates_ready_tasks() {
    let images = vec![plain_image(), plain_image()];
    let k = Kernel::new(&test_layout(), &images, 0x8020_1000, 0x8020_2000).unwrap();
    assert_eq!(k.task_manager.num_app, 2);
    assert!(matches!(k.task_manager.tasks[0].task_status, TaskStatus::Ready));
    assert!(matches!(k.task_manager.tasks[1].task_status, TaskStatus::Ready));
    assert_eq!(k.task_manager.tasks[0].trap_cx.sepc, 0x10000);
    // each task's kernel stack sits below the trampoline, guarded
    let (b0, t0) = kernel_stack_position(0);
    let (b1, t1) = kernel_stack_position(1);
    assert_eq!(t0 - b0, 0x2000);
    assert_eq!(b0 - t1, 0x1000);
    assert_eq!(k.task_manager.tasks[0].trap_cx.kernel_sp, t0);
    assert_eq!(k.task_manager.tasks[1].trap_cx.kernel_sp, t1);
    // image ends at vpn 0x11, guard at 0x11, stack 0x12..0x14
    assert_eq!(k.task_manager.tasks[0].base_size, 0x12000 + 0x2000);
    assert_eq!(
        k.task_manager.tasks[0].trap_cx.x[2],
        k.task_manager.tasks[0].base_size
    );
    assert!(k.console.is_empty());
}

#[test]
fn first_dispatch_runs_task_zero() {
    let mut k = boot(2);
    assert_eq!(k.task_manager.current_task, 0);
    assert!(matches!(k.task_manager.tasks[0].task_status, TaskStatus::Running));
    assert!(matches!(k.task_manager.tasks[1].task_status, TaskStatus::Ready));
    let (token, tc_va) = trap_return(&mut k);
    assert!(k.user_trap_entry);
    assert_eq!(token >> 60, 8);
    assert_eq!(tc_va, 0xffff_ffff_ffff_e000);
}

#[test]
fn write_syscall_emits_console_bytes_across_page_boundary() {
    // "hi" sits astride a page boundary of the application image, so
    // the kernel must emit it from two per-page slices
    let mut data = vec![0u8; 4097];
    data[4095] = b'h';
    data[4096] = b'i';
    let image = AppImage {
        entry: 0x10000,
        segments: vec![Segment {
            start_va: 0x10000,
            end_va: 0x12000,
            perm: MAP_PERM_R | MAP_PERM_W,
            data,
        }],
    };
    let images = vec![image];
    let mut k = Kernel::new(&test_layout(), &images, 0x8020_1000, 0x8020_2000).unwrap();
    k.run_first_task().unwrap();
    set_syscall_regs(&mut k, user::write(1, 0x10fff, 2));
    let sepc_before = k.task_manager.tasks[0].trap_cx.sepc;
    trap_handler(&mut k, TrapCause::UserEnvCall, 0).unwrap();
    assert_eq!(k.console, vec![b'h', b'i']);
    // the syscall returned 2 in a0 and advanced past the ecall
    assert_eq!(k.task_manager.tasks[0].trap_cx.x[10], 2);
    assert_eq!(k.task_manager.tasks[0].trap_cx.sepc, sepc_before + 4);
    assert!(k.user_trap_entry);
    // writing again appends; the bytes appear exactly once per call
    set_syscall_regs(&mut k, user::write(1, 0x10fff, 2));
    trap_handler(&mut k, TrapCause::UserEnvCall, 0).unwrap();
    assert_eq!(k.console, vec![b'h', b'i', b'h', b'i']);
}

#[test]
fn write_rejects_bad_descriptor_and_bad_buffer() {
    let mut k = boot(1);
    set_syscall_regs(&mut k, user::write(2, 0x10000, 1));
    assert_eq!(
        trap_handler(&mut k, TrapCause::UserEnvCall, 0),
        Err(KernelError::BadFileDescriptor)
    );
    set_syscall_regs(&mut k, user::write(1, 0x0900_0000, 4));
    assert_eq!(
        trap_handler(&mut k, TrapCause::UserEnvCall, 0),
        Err(KernelError::BadUserBuffer)
    );
    assert!(k.console.is_empty());
}

#[test]
fn timer_ticks_round_robin_all_tasks_once() {
    let mut k = boot(3);
    assert_eq!(k.task_manager.current_task, 0);
    let mut order = Vec::new();
    for _ in 0..3 {
        trap_handler(&mut k, TrapCause::SupervisorTimer, 0).unwrap();
        order.push(k.task_manager.current_task);
    }
    // all three indices are visited exactly once before the first
    // repeats
    assert_eq!(order, vec![1, 2, 0]);
    trap_handler(&mut k, TrapCause::SupervisorTimer, 0).unwrap();
    assert_eq!(k.task_manager.current_task, 1);
    // the tick rearmed the timer
    assert_eq!(k.timer_deadline, k.clock + CLOCK_FREQ / TICKS_PER_SEC);
}

#[test]
fn store_fault_kills_task_forever() {
    let mut k = boot(2);
    trap_handler(&mut k, TrapCause::StoreFault, 0xdead).unwrap();
    assert!(matches!(k.task_manager.tasks[0].task_status, TaskStatus::Exited));
    assert_eq!(k.task_manager.current_task, 1);
    // the dead task is never dispatched again
    for _ in 0..4 {
        trap_handler(&mut k, TrapCause::SupervisorTimer, 0).unwrap();
        assert_eq!(k.task_manager.current_task, 1);
    }
    assert!(matches!(k.task_manager.tasks[0].task_status, TaskStatus::Exited));
    // when the only remaining task also faults, the kernel is done
    assert_eq!(
        trap_handler(&mut k, TrapCause::LoadPageFault, 0),
        Err(KernelError::NoReadyTask)
    );
}

#[test]
fn exit_syscall_terminates_and_switches() {
    let mut k = boot(2);
    set_syscall_regs(&mut k, user::exit(0));
    trap_handler(&mut k, TrapCause::UserEnvCall, 0).unwrap();
    assert!(matches!(k.task_manager.tasks[0].task_status, TaskStatus::Exited));
    assert_eq!(k.task_manager.current_task, 1);
    set_syscall_regs(&mut k, user::exit(1));
    assert_eq!(
        trap_handler(&mut k, TrapCause::UserEnvCall, 0),
        Err(KernelError::NoReadyTask)
    );
}

#[test]
fn yield_passes_processor_and_returns_zero() {
    let mut k = boot(2);
    k.task_manager.tasks[0].trap_cx.x[10] = 99;
    set_syscall_regs(&mut k, user::yield_());
    trap_handler(&mut k, TrapCause::UserEnvCall, 0).unwrap();
    assert_eq!(k.task_manager.current_task, 1);
    assert!(matches!(k.task_manager.tasks[0].task_status, TaskStatus::Ready));
    // the yielding task sees 0 once it is redispatched
    assert_eq!(k.task_manager.tasks[0].trap_cx.x[10], 0);
}

#[test]
fn get_time_is_monotonic_milliseconds() {
    let mut k = boot(1);
    timer::advance_clock(&mut k, 5 * 12500);
    set_syscall_regs(&mut k, user::get_time());
    trap_handler(&mut k, TrapCause::UserEnvCall, 0).unwrap();
    let t1 = k.task_manager.tasks[0].trap_cx.x[10];
    assert_eq!(t1, 5);
    // a busy wait later, the reading has not gone backwards
    timer::advance_clock(&mut k, 3 * 12500 + 17);
    set_syscall_regs(&mut k, user::get_time());
    trap_handler(&mut k, TrapCause::UserEnvCall, 0).unwrap();
    let t2 = k.task_manager.tasks[0].trap_cx.x[10];
    assert!(t2 >= t1);
    assert_eq!(t2, 8);
    assert_eq!(timer::get_time_ms(&k), k.clock / (CLOCK_FREQ / MICRO_PER_SEC));
}

#[test]
fn illegal_instruction_is_isolated() {
    let mut k = boot(2);
    trap_handler(&mut k, TrapCause::IllegalInstruction, 0).unwrap();
    assert!(matches!(k.task_manager.tasks[0].task_status, TaskStatus::Exited));
    assert_eq!(k.task_manager.current_task, 1);
}

#[test]
fn unsupported_trap_and_syscall_are_fatal() {
    let mut k = boot(1);
    assert_eq!(
        trap_handler(&mut k, TrapCause::Other(31), 7),
        Err(KernelError::UnsupportedTrap)
    );
    set_syscall_regs(
        &mut k,
        user::SyscallRequest { id: 9999, arg0: 0, arg1: 0, arg2: 0 },
    );
    assert_eq!(
        trap_handler(&mut k, TrapCause::UserEnvCall, 0),
        Err(KernelError::UnsupportedSyscall)
    );
}

#[test]
fn kernel_trap_is_fatal() {
    assert_eq!(trap_from_kernel(), KernelError::TrapFromKernel);
}

#[test]
fn user_requests_use_fixed_ids() {
    assert_eq!(user::write(1, 0x100, 2).id, 64);
    assert_eq!(user::exit(0).id, 93);
    assert_eq!(user::yield_().id, 124);
    assert_eq!(user::get_time().id, 169);
}

#[test]
fn contexts_initialize_as_specified() {
    let tc = TaskContext::zero_init();
    assert_eq!((tc.ra, tc.sp), (0, 0));
    assert!(tc.s.iter().all(|r| *r == 0));
    let tc2 = TaskContext::goto_trap_return(0x9000, 0x8020_2000);
    assert_eq!((tc2.ra, tc2.sp), (0x8020_2000, 0x9000));
    let cx = TrapContext::app_init_context(0x10000, 0x13000, 0x8000_0000_0008_0200, 0x9000, 0x8020_1000);
    assert_eq!(cx.sepc, 0x10000);
    assert_eq!(cx.x[2], 0x13000);
    assert_eq!(cx.kernel_satp, 0x8000_0000_0008_0200);
    assert_eq!(cx.kernel_sp, 0x9000);
    assert_eq!(cx.trap_handler, 0x8020_1000);
    assert!(cx.x.iter().enumerate().all(|(i, v)| i == 2 || *v == 0));
}
