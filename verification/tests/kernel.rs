use os5::config::{MAX_SYSCALL_NUM, TRAMPOLINE};
use os5::mm::{MapArea, MemorySet, MAP_PERM_R, MAP_PERM_W};
use os5::syscall::process::{
    sys_exec, sys_exit, sys_fork, sys_get_time, sys_getpid, sys_mmap, sys_munmap,
    sys_set_priority, sys_spawn, sys_task_info, sys_waitpid, sys_yield, TimeVal,
};
use os5::syscall::{
    admits, input_kind, is_known_syscall, syscall, InputKind, SyscallAction, SyscallInput,
    SyscallOutcome,
    SYSCALL_EXEC, SYSCALL_EXIT,
    SYSCALL_FORK, SYSCALL_GETPID, SYSCALL_GET_TIME, SYSCALL_MMAP, SYSCALL_MUNMAP, SYSCALL_READ,
    SYSCALL_SET_PRIORITY, SYSCALL_SPAWN, SYSCALL_TASK_INFO, SYSCALL_WAITPID, SYSCALL_WRITE,
    SYSCALL_YIELD,
};
use os5::task::kernel::{Kernel, INITPROC_NAME, INITPROC_PID};
use os5::task::processor::{
    current_task, current_trap_cx, current_user_token, get_run_time, get_syscall_times, mmap,
    munmap, run_tasks, schedule, set_priority, take_current_task, update_syscall_times,
};
use os5::task::switch::{ContextSlot, Switch};
use os5::task::task::{ElfImage, TaskControlBlock, TaskStatus};
use os5::task::{add_initproc, exit_current_and_run_next, suspend_current_and_run_next};
use os5::trap::TrapEntry;

const KERNEL_TOKEN: usize = 0x8000_0000;
const TRAP_HANDLER: usize = 0x8020_1000;
const TRAP_RETURN: usize = 0x8020_2000;
const BOOT_TIME: usize = 100_000;
const LATER: usize = 200_000;

fn image(token: usize, entry_point: usize) -> ElfImage {
    let mut memory_set = MemorySet::new_bare(token);
    memory_set.insert_framed_area(0x1_0000, 0x1_3000, 0x1a);
    memory_set.insert_framed_area(0x1_4000, 0x1_6000, 0x16);
    ElfImage { memory_set, trap_cx_ppn: token + 100, user_sp: 0x1_6000, entry_point }
}

/// A kernel whose initial process is in the ready queue.
fn booted() -> Kernel {
    let mut kernel = Kernel::new(
        KERNEL_TOKEN,
        TrapEntry { trap_handler: TRAP_HANDLER, trap_return: TRAP_RETURN },
    );
    add_initproc(&mut kernel, image(1, 0x1_0000));
    kernel
}

/// A kernel whose initial process runs.
fn running() -> Kernel {
    let mut kernel = booted();
    assert_eq!(
        run_tasks(&mut kernel, BOOT_TIME),
        Some(Switch { from: ContextSlot::Idle, to: ContextSlot::Task(0) })
    );
    kernel
}

fn task(kernel: &Kernel, pid: usize) -> &TaskControlBlock {
    kernel.tasks.get(pid)
}

fn status(kernel: &Kernel, pid: usize) -> TaskStatus {
    task(kernel, pid).inner.task_status
}

fn call(kernel: &mut Kernel, id: usize, args: [usize; 3]) -> SyscallOutcome {
    syscall(kernel, id, args, SyscallInput::Nothing)
}

fn fork(kernel: &mut Kernel, token: usize) -> isize {
    let out = syscall(
        kernel,
        SYSCALL_FORK,
        [0, 0, 0],
        SyscallInput::AddressSpace { token, trap_cx_ppn: token + 100 },
    );
    assert!(matches!(out.action, SyscallAction::Return));
    out.ret
}

/// Lets the running task give up the processor and dispatches `pid`, which the
/// scheduler is known to pick.
fn switch_to(kernel: &mut Kernel, pid: usize) {
    if let Some(current) = kernel.processor.current {
        let out = call(kernel, SYSCALL_YIELD, [0, 0, 0]);
        assert_eq!(out.ret, 0);
        assert!(matches!(
            out.action,
            SyscallAction::Switch(Switch { from: ContextSlot::Task(p), to: ContextSlot::Idle }) if p == current
        ));
    }
    assert_eq!(
        run_tasks(kernel, LATER),
        Some(Switch { from: ContextSlot::Idle, to: ContextSlot::Task(pid) })
    );
}

/// The checks that hold of every state between two operations.
fn check_invariant(kernel: &Kernel) {
    let slots = &kernel.tasks.slots;
    assert_eq!(slots.len(), kernel.pid_allocator.current);
    let mut live: usize = 0;
    let mut running: Vec<usize> = Vec::new();
    for pid in 0..slots.len() {
        let recycled: bool = kernel.pid_allocator.recycled.contains(&pid);
        assert_eq!(slots[pid].is_some(), !recycled);
        if let Some(t) = &slots[pid] {
            live += 1;
            assert_eq!(t.pid.0, pid);
            assert_eq!(t.kernel_stack.pid, pid);
            assert!(t.inner.priority >= 2);
            match t.inner.task_status {
                TaskStatus::Running => running.push(pid),
                TaskStatus::Ready => {
                    let times: usize =
                        kernel.task_manager.ready_queue.iter().filter(|p| **p == pid).count();
                    assert_eq!(times, 1);
                }
                TaskStatus::Zombie => {
                    assert!(t.inner.children.is_empty());
                    assert!(t.inner.memory_set.areas.is_empty());
                }
                TaskStatus::UnInit => panic!("a live task has a status"),
            }
            match t.inner.parent {
                None => assert_eq!(pid, INITPROC_PID),
                Some(parent) => {
                    let p = slots[parent].as_ref().unwrap();
                    let times: usize = p.inner.children.iter().filter(|c| **c == pid).count();
                    assert_eq!(times, 1);
                }
            }
            for child in t.inner.children.iter() {
                assert_eq!(slots[*child].as_ref().unwrap().inner.parent, Some(pid));
            }
        }
    }
    assert_eq!(kernel.kernel_space.areas.len(), live);
    assert_eq!(kernel.pid_allocator.current - kernel.pid_allocator.recycled.len(), live);
    for pid in kernel.task_manager.ready_queue.iter() {
        assert_eq!(slots[*pid].as_ref().unwrap().inner.task_status, TaskStatus::Ready);
    }
    match kernel.processor.current {
        Some(pid) => assert_eq!(running, vec![pid]),
        None => assert!(running.is_empty()),
    }
}

#[test]
fn a_new_kernel_is_empty() {
    let kernel = Kernel::new(
        KERNEL_TOKEN,
        TrapEntry { trap_handler: TRAP_HANDLER, trap_return: TRAP_RETURN },
    );
    assert!(kernel.tasks.slots.is_empty());
    assert!(kernel.task_manager.ready_queue.is_empty());
    assert_eq!(kernel.processor.current, None);
    assert_eq!(kernel.pid_allocator.current, 0);
    assert!(kernel.kernel_space.areas.is_empty());
    assert_eq!(kernel.kernel_space.token, KERNEL_TOKEN);
    assert_eq!((kernel.processor.idle_task_cx.ra, kernel.processor.idle_task_cx.sp), (0, 0));
    assert_eq!(kernel.processor.idle_task_cx.s, [0; 12]);
    check_invariant(&kernel);
    assert_eq!(INITPROC_NAME, "ch5b_initproc");
}

#[test]
fn boot() {
    let mut kernel = booted();
    check_invariant(&kernel);
    assert_eq!(kernel.task_manager.ready_queue, vec![0]);
    assert_eq!(status(&kernel, 0), TaskStatus::Ready);
    assert_eq!(task(&kernel, 0).inner.parent, None);
    assert_eq!(
        kernel.kernel_space.areas,
        vec![MapArea {
            start_vpn: TRAMPOLINE / 4096 - 2,
            end_vpn: TRAMPOLINE / 4096,
            perm: MAP_PERM_R | MAP_PERM_W,
        }]
    );

    assert_eq!(task(&kernel, 0).inner.start_time, 0);
    let switch = run_tasks(&mut kernel, 1_500);
    assert_eq!(switch, Some(Switch { from: ContextSlot::Idle, to: ContextSlot::Task(0) }));
    check_invariant(&kernel);
    assert_eq!(kernel.processor.current, Some(0));
    assert_eq!(status(&kernel, 0), TaskStatus::Running);
    assert!(kernel.task_manager.ready_queue.is_empty());

    let inner = &task(&kernel, 0).inner;
    assert_eq!(inner.trap_cx.sepc, 0x1_0000);
    assert_eq!(inner.trap_cx.x[2], 0x1_6000);
    for i in 0..32 {
        if i != 2 {
            assert_eq!(inner.trap_cx.x[i], 0);
        }
    }
    assert_eq!(inner.trap_cx.kernel_satp, KERNEL_TOKEN);
    assert_eq!(inner.trap_cx.kernel_sp, TRAMPOLINE);
    assert_eq!(inner.trap_cx.trap_handler, TRAP_HANDLER);
    assert_eq!((inner.task_cx.ra, inner.task_cx.sp), (TRAP_RETURN, TRAMPOLINE));
    assert_eq!(inner.task_cx.s, [0; 12]);
    assert_eq!(inner.base_size, 0x1_6000);
    assert_eq!(inner.trap_cx_ppn, 101);
    assert_eq!((inner.priority, inner.pass), (16, 15));
    assert_eq!(inner.exit_code, 0);
    assert_eq!(inner.start_time, 1_500);
    assert_eq!(current_user_token(&kernel), 1);

    let out = call(&mut kernel, SYSCALL_GETPID, [0, 0, 0]);
    assert_eq!(out.ret, 0);
    assert!(matches!(out.action, SyscallAction::Return));
    assert_eq!(sys_getpid(&kernel), 0);
}

#[test]
fn dispatch_with_an_empty_queue_does_nothing() {
    let mut kernel = Kernel::new(0, TrapEntry { trap_handler: 0, trap_return: 0 });
    assert_eq!(run_tasks(&mut kernel, 7), None);
    assert_eq!(kernel.processor.current, None);
    check_invariant(&kernel);
}

#[test]
fn fork_and_wait() {
    let mut kernel = running();
    assert_eq!(fork(&mut kernel, 2), 1);
    check_invariant(&kernel);
    assert_eq!(task(&kernel, 0).inner.children, vec![1]);
    assert_eq!(task(&kernel, 1).inner.parent, Some(0));
    assert_eq!(status(&kernel, 1), TaskStatus::Ready);
    assert_eq!(kernel.task_manager.ready_queue, vec![1]);

    // The child has not exited yet.
    let out = call(&mut kernel, SYSCALL_WAITPID, [usize::MAX, 0x5000, 0]);
    assert_eq!(out.ret, -2);
    assert!(matches!(out.action, SyscallAction::Return));

    switch_to(&mut kernel, 1);
    check_invariant(&kernel);
    let out = call(&mut kernel, SYSCALL_EXIT, [42, 0, 0]);
    assert!(matches!(
        out.action,
        SyscallAction::Switch(Switch { from: ContextSlot::Unused, to: ContextSlot::Idle })
    ));
    check_invariant(&kernel);
    assert_eq!(status(&kernel, 1), TaskStatus::Zombie);
    assert_eq!(task(&kernel, 1).inner.exit_code, 42);
    assert_eq!(kernel.processor.current, None);

    switch_to(&mut kernel, 0);
    let out = call(&mut kernel, SYSCALL_WAITPID, [usize::MAX, 0x5000, 0]);
    assert_eq!(out.ret, 1);
    assert!(matches!(
        out.action,
        SyscallAction::StoreExitCode { ptr: 0x5000, exit_code: 42 }
    ));
    check_invariant(&kernel);
    assert!(!kernel.tasks.contains(1));
    assert!(task(&kernel, 0).inner.children.is_empty());
    assert_eq!(kernel.pid_allocator.recycled, vec![1]);
    assert_eq!(kernel.kernel_space.areas.len(), 1);

    // The process identifier of the child is handed out again.
    assert_eq!(fork(&mut kernel, 3), 1);
    check_invariant(&kernel);
    assert_eq!(kernel.kernel_space.areas.len(), 2);
}

#[test]
fn the_child_of_fork_copies_its_parent() {
    let mut kernel = running();
    {
        let cx = current_trap_cx(&mut kernel);
        cx.x[10] = 7;
        cx.x[11] = 8;
        cx.sepc = 0x1_0040;
    }
    assert_eq!(set_priority(&mut kernel, 5), 5);
    assert_eq!(sys_fork(&mut kernel, 2, 55), 1);
    let parent = &task(&kernel, 0).inner;
    let child = &task(&kernel, 1).inner;
    assert_eq!(child.memory_set.token, 2);
    assert_eq!(child.memory_set.areas, parent.memory_set.areas);
    assert_eq!(child.trap_cx_ppn, 55);
    assert_eq!(child.base_size, parent.base_size);
    assert_eq!(child.trap_cx.x[10], 0);
    assert_eq!(child.trap_cx.x[11], 8);
    assert_eq!(child.trap_cx.x[2], 0x1_6000);
    assert_eq!(child.trap_cx.sepc, 0x1_0040);
    assert_eq!(child.trap_cx.kernel_satp, KERNEL_TOKEN);
    assert_eq!(child.trap_cx.kernel_sp, TRAMPOLINE - 0x3000);
    assert_eq!(parent.trap_cx.kernel_sp, TRAMPOLINE);
    assert_eq!(parent.trap_cx.x[10], 7);
    assert_eq!((child.task_cx.ra, child.task_cx.sp), (TRAP_RETURN, TRAMPOLINE - 0x3000));
    assert_eq!((child.priority, child.pass, child.exit_code), (16, 0, 0));
    assert_eq!(child.syscall_times, [0; MAX_SYSCALL_NUM]);
    assert!(child.children.is_empty());
    check_invariant(&kernel);
}

#[test]
fn waitpid_tells_a_missing_child_from_a_living_one() {
    let mut kernel = running();
    assert_eq!(sys_waitpid(&mut kernel, -1), (-1, None));
    assert_eq!(sys_waitpid(&mut kernel, 1), (-1, None));
    assert_eq!(fork(&mut kernel, 2), 1);
    assert_eq!(fork(&mut kernel, 3), 2);
    assert_eq!(sys_waitpid(&mut kernel, -1), (-2, None));
    assert_eq!(sys_waitpid(&mut kernel, 1), (-2, None));
    assert_eq!(sys_waitpid(&mut kernel, 2), (-2, None));
    assert_eq!(sys_waitpid(&mut kernel, 3), (-1, None));
    assert_eq!(sys_waitpid(&mut kernel, 0), (-1, None));
    assert_eq!(sys_waitpid(&mut kernel, -2), (-1, None));
    assert_eq!(sys_waitpid(&mut kernel, isize::MIN), (-1, None));
    check_invariant(&kernel);
}

#[test]
fn waitpid_reaps_the_first_zombie_that_is_asked_for() {
    let mut kernel = running();
    assert_eq!(fork(&mut kernel, 2), 1);
    assert_eq!(fork(&mut kernel, 3), 2);
    assert_eq!(fork(&mut kernel, 4), 3);
    // The children 2 and 3 exit, with the codes -5 and 9.
    switch_to(&mut kernel, 1);
    switch_to(&mut kernel, 2);
    sys_exit(&mut kernel, -5);
    switch_to(&mut kernel, 3);
    sys_exit(&mut kernel, 9);
    check_invariant(&kernel);
    while kernel.processor.current != Some(0) {
        if kernel.processor.current.is_some() {
            sys_yield(&mut kernel);
        }
        run_tasks(&mut kernel, LATER);
    }
    assert_eq!(sys_waitpid(&mut kernel, 1), (-2, None));
    assert_eq!(sys_waitpid(&mut kernel, 3), (3, Some(9)));
    assert_eq!(task(&kernel, 0).inner.children, vec![1, 2]);
    assert_eq!(sys_waitpid(&mut kernel, 3), (-1, None));
    assert_eq!(sys_waitpid(&mut kernel, -1), (2, Some(-5)));
    assert_eq!(sys_waitpid(&mut kernel, -1), (-2, None));
    assert_eq!(kernel.pid_allocator.recycled, vec![3, 2]);
    check_invariant(&kernel);
    assert_eq!(fork(&mut kernel, 5), 2);
    assert_eq!(fork(&mut kernel, 6), 3);
    assert_eq!(fork(&mut kernel, 7), 4);
    check_invariant(&kernel);
}

#[test]
fn zombie_reparenting() {
    let mut kernel = running();
    let a: usize = fork(&mut kernel, 2) as usize;
    switch_to(&mut kernel, a);
    let b: usize = fork(&mut kernel, 3) as usize;
    let c: usize = fork(&mut kernel, 4) as usize;
    assert_eq!((a, b, c), (1, 2, 3));
    assert_eq!(task(&kernel, b).inner.parent, Some(a));
    assert_eq!(task(&kernel, a).inner.children, vec![b, c]);
    check_invariant(&kernel);

    let switch = exit_current_and_run_next(&mut kernel, 3);
    assert_eq!(switch, Switch { from: ContextSlot::Unused, to: ContextSlot::Idle });
    check_invariant(&kernel);
    assert_eq!(task(&kernel, b).inner.parent, Some(INITPROC_PID));
    assert_eq!(task(&kernel, c).inner.parent, Some(INITPROC_PID));
    assert_eq!(task(&kernel, INITPROC_PID).inner.children, vec![a, b, c]);
    assert!(task(&kernel, a).inner.children.is_empty());
    assert!(task(&kernel, a).inner.memory_set.areas.is_empty());
    assert_eq!(task(&kernel, a).inner.memory_set.token, 2);
    assert_eq!(status(&kernel, a), TaskStatus::Zombie);
    assert_eq!(task(&kernel, a).inner.parent, Some(INITPROC_PID));
    assert_eq!(status(&kernel, b), TaskStatus::Ready);
    assert_eq!(kernel.kernel_space.areas.len(), 4);
}

#[test]
fn syscall_accounting() {
    let mut kernel = running();
    for _ in 0..5 {
        let out = call(&mut kernel, SYSCALL_YIELD, [0, 0, 0]);
        assert_eq!(out.ret, 0);
        assert_eq!(kernel.processor.current, None);
        assert_eq!(status(&kernel, 0), TaskStatus::Ready);
        assert_eq!(
            run_tasks(&mut kernel, LATER),
            Some(Switch { from: ContextSlot::Idle, to: ContextSlot::Task(0) })
        );
        assert_eq!(task(&kernel, 0).inner.start_time, BOOT_TIME);
    }
    assert_eq!(call(&mut kernel, SYSCALL_GETPID, [0, 0, 0]).ret, 0);
    let out = syscall(&mut kernel, SYSCALL_TASK_INFO, [0x7000, 0, 0], SyscallInput::Time(5_432_100));
    assert_eq!(out.ret, 0);
    match out.action {
        SyscallAction::StoreTaskInfo { ptr, info } => {
            assert_eq!(ptr, 0x7000);
            assert_eq!(info.status, TaskStatus::Running);
            assert_eq!(info.time, 5332);
            assert_eq!(info.syscall_times[SYSCALL_YIELD], 5);
            assert_eq!(info.syscall_times[SYSCALL_GETPID], 1);
            assert_eq!(info.syscall_times[SYSCALL_TASK_INFO], 1);
            let total: u32 = info.syscall_times.iter().sum();
            assert_eq!(total, 7);
        }
        _ => panic!("task_info stores the task info"),
    }
    assert_eq!(get_syscall_times(&kernel)[124], 5);
    assert_eq!(get_syscall_times(&kernel)[172], 1);
    assert_eq!(get_run_time(&kernel, 1_000_000), 900_000);
    assert_eq!(get_run_time(&kernel, BOOT_TIME), 0);
    assert_eq!(sys_task_info(&kernel, BOOT_TIME + 999).time, 0);
    assert_eq!(sys_task_info(&kernel, BOOT_TIME + 1000).time, 1);
    update_syscall_times(&mut kernel, 499);
    assert_eq!(get_syscall_times(&kernel)[499], 1);
    check_invariant(&kernel);
}

#[test]
fn counts_belong_to_the_task_that_calls() {
    let mut kernel = running();
    assert_eq!(fork(&mut kernel, 2), 1);
    switch_to(&mut kernel, 1);
    call(&mut kernel, SYSCALL_GETPID, [0, 0, 0]);
    call(&mut kernel, SYSCALL_GETPID, [0, 0, 0]);
    assert_eq!(task(&kernel, 1).inner.syscall_times[SYSCALL_GETPID], 2);
    assert_eq!(task(&kernel, 1).inner.syscall_times[SYSCALL_FORK], 0);
    assert_eq!(task(&kernel, 0).inner.syscall_times[SYSCALL_GETPID], 0);
    assert_eq!(task(&kernel, 0).inner.syscall_times[SYSCALL_FORK], 1);
    assert_eq!(task(&kernel, 0).inner.syscall_times[SYSCALL_YIELD], 1);
    assert_eq!(call(&mut kernel, SYSCALL_GETPID, [0, 0, 0]).ret, 1);
}

#[test]
fn mmap_rejections() {
    let mut kernel = Kernel::new(
        KERNEL_TOKEN,
        TrapEntry { trap_handler: TRAP_HANDLER, trap_return: TRAP_RETURN },
    );
    let mut memory_set = MemorySet::new_bare(1);
    memory_set.insert_framed_area(0x40_0000, 0x40_2000, 0x1e);
    add_initproc(
        &mut kernel,
        ElfImage { memory_set, trap_cx_ppn: 3, user_sp: 0x40_2000, entry_point: 0x40_0000 },
    );
    run_tasks(&mut kernel, BOOT_TIME);
    assert_eq!(mmap(&mut kernel, 0x1001, 0x1000, 0b011), -1);
    assert_eq!(mmap(&mut kernel, 0x10000, 0x1000, 0b1000), -1);
    assert_eq!(mmap(&mut kernel, 0x10000, 0x1000, 0), -1);
    assert_eq!(task(&kernel, 0).inner.memory_set.areas.len(), 1);
    assert_eq!(mmap(&mut kernel, 0x10000, 0x1000, 0b011), 0);
    assert_eq!(mmap(&mut kernel, 0x10000, 0x1000, 0b011), -1);
    assert_eq!(
        task(&kernel, 0).inner.memory_set.areas,
        vec![
            MapArea { start_vpn: 0x400, end_vpn: 0x402, perm: 0x1e },
            MapArea { start_vpn: 0x10, end_vpn: 0x11, perm: 0b10110 },
        ]
    );
    check_invariant(&kernel);
}

#[test]
fn mmap_refuses_what_it_cannot_map() {
    let mut kernel = running();
    assert_eq!(mmap(&mut kernel, 0x1001, 0x1000, 0b011), -1);
    assert_eq!(mmap(&mut kernel, 0x20000, 0x1000, 0b1000), -1);
    assert_eq!(mmap(&mut kernel, 0x20000, 0x1000, 0), -1);
    assert_eq!(task(&kernel, 0).inner.memory_set.areas.len(), 2);
    assert_eq!(mmap(&mut kernel, 0x20000, 0x1000, 0b011), 0);
    assert_eq!(mmap(&mut kernel, 0x20000, 0x1000, 0b011), -1);
    assert_eq!(task(&kernel, 0).inner.memory_set.areas.len(), 3);
    assert_eq!(
        task(&kernel, 0).inner.memory_set.areas[2],
        MapArea { start_vpn: 0x20, end_vpn: 0x21, perm: 0b10110 }
    );
    // A range that only touches a mapped page at its end is refused too.
    assert_eq!(mmap(&mut kernel, 0x1e000, 0x2001, 0b001), -1);
    assert_eq!(mmap(&mut kernel, 0x1e000, 0x2000, 0b001), 0);
    assert_eq!(mmap(&mut kernel, 0x21000, 1, 0b111), 0);
    assert_eq!(
        task(&kernel, 0).inner.memory_set.areas[4],
        MapArea { start_vpn: 0x21, end_vpn: 0x22, perm: 0b11110 }
    );
    assert_eq!(mmap(&mut kernel, 0x1_0000, 0x1000, 0b011), -1);
    check_invariant(&kernel);
}

#[test]
fn mmap_rejections_through_the_dispatcher() {
    let mut kernel = running();
    assert_eq!(call(&mut kernel, SYSCALL_MMAP, [0x1001, 0x1000, 0b011]).ret, -1);
    assert_eq!(call(&mut kernel, SYSCALL_MMAP, [0x20000, 0x1000, 0b1000]).ret, -1);
    assert_eq!(call(&mut kernel, SYSCALL_MMAP, [0x20000, 0x1000, 0]).ret, -1);
    assert_eq!(call(&mut kernel, SYSCALL_MMAP, [0x20000, 0x1000, 0b011]).ret, 0);
    assert_eq!(call(&mut kernel, SYSCALL_MMAP, [0x20000, 0x1000, 0b011]).ret, -1);
    assert_eq!(call(&mut kernel, SYSCALL_MUNMAP, [0x20000, 0x1000, 0]).ret, 0);
    assert_eq!(call(&mut kernel, SYSCALL_MUNMAP, [0x20000, 0x1000, 0]).ret, -1);
    assert_eq!(task(&kernel, 0).inner.syscall_times[SYSCALL_MMAP], 5);
    assert_eq!(task(&kernel, 0).inner.syscall_times[SYSCALL_MUNMAP], 2);
}

#[test]
fn mmap_then_munmap_restores_the_address_space() {
    let mut kernel = running();
    let before = task(&kernel, 0).inner.memory_set.areas.clone();
    assert_eq!(sys_mmap(&mut kernel, 0x40000, 0x2800, 0b101), 0);
    assert_eq!(task(&kernel, 0).inner.memory_set.translate(0x42).unwrap().flags, 0b11011);
    assert_eq!(task(&kernel, 0).inner.memory_set.translate(0x43), None);
    assert_eq!(sys_munmap(&mut kernel, 0x40000, 0x2800), 0);
    assert_eq!(task(&kernel, 0).inner.memory_set.areas, before);
    for vpn in 0x3e..0x45 {
        assert_eq!(task(&kernel, 0).inner.memory_set.translate(vpn), None);
    }
    check_invariant(&kernel);
}

#[test]
fn munmap_rejections() {
    let mut kernel = running();
    assert_eq!(munmap(&mut kernel, 0x40001, 0x1000), -1);
    assert_eq!(munmap(&mut kernel, 0x40000, 0x1000), -1);
    assert_eq!(mmap(&mut kernel, 0x40000, 0x2000, 0b011), 0);
    assert_eq!(munmap(&mut kernel, 0x40000, 0x2001), -1);
    assert_eq!(munmap(&mut kernel, 0x3f000, 0x2000), -1);
    assert_eq!(task(&kernel, 0).inner.memory_set.areas.len(), 3);
    assert_eq!(munmap(&mut kernel, 0x40000, 0), 0);
    assert_eq!(task(&kernel, 0).inner.memory_set.areas.len(), 3);
}

#[test]
fn munmap_removes_regions_by_their_first_page() {
    let mut kernel = running();
    assert_eq!(mmap(&mut kernel, 0x40000, 0x3000, 0b011), 0);
    // No region starts at the second page: nothing is unmapped.
    assert_eq!(munmap(&mut kernel, 0x41000, 0x1000), 0);
    assert_eq!(task(&kernel, 0).inner.memory_set.areas.len(), 3);
    // The region starts at the first page: all of it is unmapped.
    assert_eq!(munmap(&mut kernel, 0x40000, 0x1000), 0);
    assert_eq!(task(&kernel, 0).inner.memory_set.areas.len(), 2);
    assert_eq!(task(&kernel, 0).inner.memory_set.translate(0x42), None);
}

#[test]
fn a_region_without_pages_inside_the_range_goes_with_it() {
    let mut kernel = running();
    let before = task(&kernel, 0).inner.memory_set.areas.clone();
    assert_eq!(mmap(&mut kernel, 0x41000, 0, 0b011), 0);
    assert_eq!(task(&kernel, 0).inner.memory_set.areas.len(), 3);
    assert_eq!(mmap(&mut kernel, 0x40000, 0x2000, 0b011), 0);
    assert_eq!(munmap(&mut kernel, 0x40000, 0x2000), 0);
    assert_eq!(task(&kernel, 0).inner.memory_set.translate(0x40), None);
    assert_eq!(task(&kernel, 0).inner.memory_set.translate(0x41), None);
    assert_eq!(task(&kernel, 0).inner.memory_set.areas, before);
    check_invariant(&kernel);
}

#[test]
fn a_region_without_pages_does_not_stand_in_the_way_of_munmap() {
    let mut kernel = running();
    let before = task(&kernel, 0).inner.memory_set.areas.clone();
    assert_eq!(mmap(&mut kernel, 0x40000, 0, 0b011), 0);
    assert_eq!(task(&kernel, 0).inner.memory_set.translate(0x40), None);
    assert_eq!(mmap(&mut kernel, 0x40000, 0x1000, 0b011), 0);
    assert!(task(&kernel, 0).inner.memory_set.translate(0x40).is_some());
    assert_eq!(munmap(&mut kernel, 0x40000, 0x1000), 0);
    assert_eq!(task(&kernel, 0).inner.memory_set.translate(0x40), None);
    assert_eq!(task(&kernel, 0).inner.memory_set.areas, before);
    assert_eq!(munmap(&mut kernel, 0x40000, 0x1000), -1);
    check_invariant(&kernel);
}

#[test]
fn mmap_then_munmap_of_a_range_without_pages_changes_no_page() {
    let mut kernel = running();
    assert_eq!(mmap(&mut kernel, 0x40000, 0, 0b111), 0);
    assert_eq!(munmap(&mut kernel, 0x40000, 0), 0);
    for vpn in 0x3e..0x43 {
        assert_eq!(task(&kernel, 0).inner.memory_set.translate(vpn), None);
    }
    assert_eq!(task(&kernel, 0).inner.memory_set.translate(0x10).unwrap().flags, 0x1b);
    check_invariant(&kernel);
}

#[test]
fn set_priority_shows_at_the_next_fetch() {
    let mut kernel = running();
    assert_eq!(set_priority(&mut kernel, 1), -1);
    assert_eq!(set_priority(&mut kernel, 0), -1);
    assert_eq!(set_priority(&mut kernel, -3), -1);
    assert_eq!(task(&kernel, 0).inner.priority, 16);
    assert_eq!(set_priority(&mut kernel, 2), 2);
    assert_eq!(task(&kernel, 0).inner.priority, 2);
    assert_eq!(sys_set_priority(&mut kernel, 255), 255);
    assert_eq!(task(&kernel, 0).inner.priority, 255);
    assert_eq!(call(&mut kernel, SYSCALL_SET_PRIORITY, [5, 0, 0]).ret, 5);
    assert_eq!(call(&mut kernel, SYSCALL_SET_PRIORITY, [1, 0, 0]).ret, -1);
    assert_eq!(call(&mut kernel, SYSCALL_SET_PRIORITY, [usize::MAX, 0, 0]).ret, -1);
    assert_eq!(task(&kernel, 0).inner.priority, 5);
    let pass: usize = task(&kernel, 0).inner.pass;
    switch_to(&mut kernel, 0);
    assert_eq!(task(&kernel, 0).inner.pass, pass + 51);
    check_invariant(&kernel);
}

#[test]
fn a_priority_beyond_eight_bits_is_set_as_the_highest() {
    let mut kernel = running();
    assert_eq!(set_priority(&mut kernel, 256), 256);
    assert_eq!(task(&kernel, 0).inner.priority, 255);
    assert_eq!(set_priority(&mut kernel, 3), 3);
    assert_eq!(set_priority(&mut kernel, 257), 257);
    assert_eq!(task(&kernel, 0).inner.priority, 255);
    assert_eq!(set_priority(&mut kernel, 3), 3);
    assert_eq!(sys_set_priority(&mut kernel, isize::MAX), isize::MAX);
    assert_eq!(task(&kernel, 0).inner.priority, 255);
    assert_eq!(set_priority(&mut kernel, isize::MIN), -1);
    assert_eq!(task(&kernel, 0).inner.priority, 255);
    let out = call(&mut kernel, SYSCALL_SET_PRIORITY, [0x1_0000, 0, 0]);
    assert_eq!(out.ret, 0x1_0000);
    assert!(matches!(out.action, SyscallAction::Return));
    assert_eq!(call(&mut kernel, SYSCALL_SET_PRIORITY, [usize::MAX / 2, 0, 0]).ret, isize::MAX);
    assert_eq!(task(&kernel, 0).inner.priority, 255);
    // The stride of the highest priority is 1: the next fetch does not divide by
    // zero.
    let pass: usize = task(&kernel, 0).inner.pass;
    switch_to(&mut kernel, 0);
    assert_eq!(task(&kernel, 0).inner.pass, pass + 1);
    check_invariant(&kernel);
}

#[test]
fn requests_that_are_refused_at_once_may_run_over_the_address_space() {
    let mut kernel = running();
    let areas = task(&kernel, 0).inner.memory_set.areas.clone();
    assert_eq!(mmap(&mut kernel, 0x1001, usize::MAX, 0b011), -1);
    assert_eq!(mmap(&mut kernel, 0x2000, usize::MAX, 0), -1);
    assert_eq!(mmap(&mut kernel, 0x2000, usize::MAX, 8), -1);
    assert_eq!(sys_mmap(&mut kernel, usize::MAX, usize::MAX, 1), -1);
    assert_eq!(munmap(&mut kernel, 0x1001, usize::MAX), -1);
    assert_eq!(sys_munmap(&mut kernel, usize::MAX, 1), -1);
    assert_eq!(call(&mut kernel, SYSCALL_MMAP, [0x1001, usize::MAX, 3]).ret, -1);
    assert_eq!(call(&mut kernel, SYSCALL_MUNMAP, [0x1001, usize::MAX, 0]).ret, -1);
    assert_eq!(task(&kernel, 0).inner.memory_set.areas, areas);
    check_invariant(&kernel);
}

#[test]
fn start_time_is_the_time_of_the_first_dispatch() {
    let mut kernel = running();
    assert_eq!(fork(&mut kernel, 2), 1);
    assert_eq!(task(&kernel, 1).inner.start_time, 0);
    sys_yield(&mut kernel);
    assert_eq!(
        run_tasks(&mut kernel, 300_000),
        Some(Switch { from: ContextSlot::Idle, to: ContextSlot::Task(1) })
    );
    assert_eq!(task(&kernel, 1).inner.start_time, 300_000);
    assert_eq!(task(&kernel, 0).inner.start_time, BOOT_TIME);
    sys_yield(&mut kernel);
    run_tasks(&mut kernel, 400_000);
    sys_yield(&mut kernel);
    run_tasks(&mut kernel, 500_000);
    assert_eq!(task(&kernel, 1).inner.start_time, 300_000);
    assert_eq!(task(&kernel, 0).inner.start_time, BOOT_TIME);
    check_invariant(&kernel);
}

#[test]
fn suspending_puts_the_task_at_the_tail() {
    let mut kernel = running();
    assert_eq!(fork(&mut kernel, 2), 1);
    assert_eq!(fork(&mut kernel, 3), 2);
    let switch = suspend_current_and_run_next(&mut kernel);
    assert_eq!(switch, Switch { from: ContextSlot::Task(0), to: ContextSlot::Idle });
    assert_eq!(kernel.task_manager.ready_queue, vec![1, 2, 0]);
    assert_eq!(status(&kernel, 0), TaskStatus::Ready);
    assert_eq!(kernel.processor.current, None);
    check_invariant(&kernel);
    assert_eq!(schedule(ContextSlot::Task(4)), Switch { from: ContextSlot::Task(4), to: ContextSlot::Idle });
}

#[test]
fn taking_the_current_task_leaves_none() {
    let mut kernel = running();
    assert_eq!(current_task(&kernel.processor), Some(0));
    assert_eq!(take_current_task(&mut kernel.processor), Some(0));
    assert_eq!(current_task(&kernel.processor), None);
    assert_eq!(take_current_task(&mut kernel.processor), None);
}

#[test]
fn exec_replaces_the_program_and_keeps_the_rest() {
    let mut kernel = running();
    assert_eq!(fork(&mut kernel, 2), 1);
    assert_eq!(set_priority(&mut kernel, 7), 7);
    let pass: usize = task(&kernel, 0).inner.pass;
    assert_eq!(sys_exec(&mut kernel, None), -1);
    assert_eq!(task(&kernel, 0).inner.memory_set.token, 1);
    let out = syscall(
        &mut kernel,
        SYSCALL_EXEC,
        [0x3000, 0, 0],
        SyscallInput::Program(Some(ElfImage {
            memory_set: MemorySet::new_bare(9),
            trap_cx_ppn: 900,
            user_sp: 0x9000,
            entry_point: 0x8000,
        })),
    );
    assert_eq!(out.ret, 0);
    let inner = &task(&kernel, 0).inner;
    assert_eq!(inner.memory_set.token, 9);
    assert!(inner.memory_set.areas.is_empty());
    assert_eq!(inner.trap_cx_ppn, 900);
    assert_eq!((inner.trap_cx.sepc, inner.trap_cx.x[2]), (0x8000, 0x9000));
    assert_eq!(inner.trap_cx.kernel_sp, TRAMPOLINE);
    assert_eq!(inner.trap_cx.kernel_satp, KERNEL_TOKEN);
    assert_eq!(inner.trap_cx.trap_handler, TRAP_HANDLER);
    assert_eq!((inner.priority, inner.pass), (7, pass));
    assert_eq!(inner.children, vec![1]);
    assert_eq!(inner.parent, None);
    assert_eq!(inner.base_size, 0x1_6000);
    assert_eq!(inner.syscall_times[SYSCALL_EXEC], 1);
    assert_eq!(inner.syscall_times[SYSCALL_FORK], 1);
    assert_eq!(task(&kernel, 0).pid.0, 0);
    assert_eq!(status(&kernel, 0), TaskStatus::Running);
    let out = syscall(&mut kernel, SYSCALL_EXEC, [0, 0, 0], SyscallInput::Program(None));
    assert_eq!(out.ret, -1);
    check_invariant(&kernel);
}

#[test]
fn spawn_creates_a_child_that_runs_the_program() {
    let mut kernel = running();
    assert_eq!(sys_spawn(&mut kernel, None), -1);
    assert_eq!(kernel.pid_allocator.current, 1);
    let out = syscall(
        &mut kernel,
        SYSCALL_SPAWN,
        [0, 0, 0],
        SyscallInput::Program(Some(image(5, 0x2_0000))),
    );
    assert_eq!(out.ret, 1);
    let child = &task(&kernel, 1).inner;
    assert_eq!(child.parent, Some(0));
    assert_eq!(child.memory_set.token, 5);
    assert_eq!(child.trap_cx.sepc, 0x2_0000);
    assert_eq!(child.trap_cx.x[2], 0x1_6000);
    assert_eq!(child.trap_cx.x[10], 0);
    assert_eq!(child.trap_cx.kernel_sp, TRAMPOLINE - 0x3000);
    assert_eq!(child.base_size, task(&kernel, 0).inner.base_size);
    assert_eq!((child.priority, child.pass), (16, 0));
    assert_eq!(child.task_status, TaskStatus::Ready);
    assert_eq!(task(&kernel, 0).inner.children, vec![1]);
    assert_eq!(kernel.task_manager.ready_queue, vec![1]);
    assert_eq!(sys_spawn(&mut kernel, Some(image(6, 0x3_0000))), 2);
    check_invariant(&kernel);
}

#[test]
fn get_time_splits_seconds_and_microseconds() {
    assert_eq!(sys_get_time(0), TimeVal { sec: 0, usec: 0 });
    assert_eq!(sys_get_time(999_999), TimeVal { sec: 0, usec: 999_999 });
    assert_eq!(sys_get_time(12_345_678), TimeVal { sec: 12, usec: 345_678 });
    let mut kernel = running();
    let out = syscall(&mut kernel, SYSCALL_GET_TIME, [0x6000, 0, 0], SyscallInput::Time(3_000_001));
    assert_eq!(out.ret, 0);
    assert!(matches!(
        out.action,
        SyscallAction::StoreTime { ptr: 0x6000, time: TimeVal { sec: 3, usec: 1 } }
    ));
}

#[test]
fn console_calls_are_handed_on() {
    let mut kernel = running();
    let out = call(&mut kernel, SYSCALL_WRITE, [1, 0x2000, 12]);
    assert!(matches!(out.action, SyscallAction::Write { fd: 1, buf: 0x2000, len: 12 }));
    let out = call(&mut kernel, SYSCALL_READ, [0, 0x2400, 1]);
    assert!(matches!(out.action, SyscallAction::Read { fd: 0, buf: 0x2400, len: 1 }));
    assert_eq!(task(&kernel, 0).inner.syscall_times[SYSCALL_WRITE], 1);
    assert_eq!(task(&kernel, 0).inner.syscall_times[SYSCALL_READ], 1);
}

#[test]
fn system_call_numbers() {
    assert_eq!(
        [
            SYSCALL_READ,
            SYSCALL_WRITE,
            SYSCALL_EXIT,
            SYSCALL_YIELD,
            SYSCALL_SET_PRIORITY,
            SYSCALL_GET_TIME,
            SYSCALL_GETPID,
            SYSCALL_MUNMAP,
            SYSCALL_FORK,
            SYSCALL_EXEC,
            SYSCALL_MMAP,
            SYSCALL_WAITPID,
            SYSCALL_SPAWN,
            SYSCALL_TASK_INFO,
        ],
        [63, 64, 93, 124, 140, 169, 172, 215, 220, 221, 222, 260, 400, 410]
    );
    assert_eq!(MAX_SYSCALL_NUM, 500);
}

#[test]
fn fourteen_numbers_are_system_calls() {
    let known: usize = (0..MAX_SYSCALL_NUM).filter(|id| is_known_syscall(*id)).count();
    assert_eq!(known, 14);
    for id in [63, 64, 93, 124, 140, 169, 172, 215, 220, 221, 222, 260, 400, 410] {
        assert!(is_known_syscall(id));
    }
    assert!(!is_known_syscall(0));
    assert!(!is_known_syscall(411));
    assert!(!is_known_syscall(usize::MAX));
}

#[test]
fn each_system_call_says_what_it_needs() {
    assert_eq!(input_kind(SYSCALL_GET_TIME), InputKind::Time);
    assert_eq!(input_kind(SYSCALL_TASK_INFO), InputKind::Time);
    assert_eq!(input_kind(SYSCALL_EXEC), InputKind::Program);
    assert_eq!(input_kind(SYSCALL_SPAWN), InputKind::Program);
    assert_eq!(input_kind(SYSCALL_FORK), InputKind::AddressSpace);
    for id in [SYSCALL_READ, SYSCALL_WRITE, SYSCALL_EXIT, SYSCALL_YIELD, SYSCALL_GETPID] {
        assert_eq!(input_kind(id), InputKind::Nothing);
    }
    for id in [SYSCALL_SET_PRIORITY, SYSCALL_MMAP, SYSCALL_MUNMAP, SYSCALL_WAITPID, 0, 499] {
        assert_eq!(input_kind(id), InputKind::Nothing);
    }
}

#[test]
fn a_call_is_admitted_only_if_it_can_be_served() {
    let mut kernel = running();
    let nothing = SyscallInput::Nothing;
    assert!(admits(&kernel, SYSCALL_GETPID, [0, 0, 0], &nothing));
    assert!(admits(&kernel, SYSCALL_YIELD, [0, 0, 0], &SyscallInput::Time(5)));
    // An unknown number, and the initial process that exits.
    assert!(!admits(&kernel, 1, [0, 0, 0], &nothing));
    assert!(!admits(&kernel, 499, [0, 0, 0], &nothing));
    assert!(!admits(&kernel, SYSCALL_EXIT, [0, 0, 0], &nothing));
    // The wrong kind of input.
    assert!(!admits(&kernel, SYSCALL_FORK, [0, 0, 0], &nothing));
    assert!(!admits(&kernel, SYSCALL_GET_TIME, [0, 0, 0], &nothing));
    assert!(!admits(&kernel, SYSCALL_EXEC, [0, 0, 0], &SyscallInput::Time(5)));
    assert!(admits(&kernel, SYSCALL_EXEC, [0, 0, 0], &SyscallInput::Program(None)));
    assert!(admits(&kernel, SYSCALL_GET_TIME, [0, 0, 0], &SyscallInput::Time(0)));
    // A timer reading before the start time.
    assert!(!admits(&kernel, SYSCALL_TASK_INFO, [0, 0, 0], &SyscallInput::Time(BOOT_TIME - 1)));
    assert!(admits(&kernel, SYSCALL_TASK_INFO, [0, 0, 0], &SyscallInput::Time(BOOT_TIME)));
    // A range that runs over the end of the address space, where the call gets
    // as far as to look at it.
    assert!(!admits(&kernel, SYSCALL_MMAP, [usize::MAX - 4095, 4097, 3], &nothing));
    assert!(admits(&kernel, SYSCALL_MMAP, [usize::MAX - 4095, 4095, 3], &nothing));
    assert!(admits(&kernel, SYSCALL_MMAP, [usize::MAX - 4095, 4097, 0], &nothing));
    assert!(admits(&kernel, SYSCALL_MMAP, [usize::MAX - 4095, 4097, 8], &nothing));
    assert!(admits(&kernel, SYSCALL_MMAP, [0x1001, usize::MAX, 3], &nothing));
    assert!(!admits(&kernel, SYSCALL_MUNMAP, [0x1000, usize::MAX, 0], &nothing));
    assert!(admits(&kernel, SYSCALL_MUNMAP, [2, usize::MAX, 0], &nothing));
    // Any priority.
    assert!(admits(&kernel, SYSCALL_SET_PRIORITY, [256, 0, 0], &nothing));
    assert!(admits(&kernel, SYSCALL_SET_PRIORITY, [255, 0, 0], &nothing));
    assert!(admits(&kernel, SYSCALL_SET_PRIORITY, [usize::MAX, 0, 0], &nothing));
    assert!(admits(&kernel, SYSCALL_SET_PRIORITY, [usize::MAX / 2, 0, 0], &nothing));
    // A program whose regions overlap.
    let mut overlapping = image(7, 0);
    overlapping.memory_set.areas[1].start_vpn = 0x12;
    assert!(!overlapping.memory_set.is_wf());
    assert!(!admits(&kernel, SYSCALL_SPAWN, [0, 0, 0], &SyscallInput::Program(Some(overlapping))));
    assert!(admits(
        &kernel,
        SYSCALL_SPAWN,
        [0, 0, 0],
        &SyscallInput::Program(Some(image(7, 0)))
    ));
    // A count that would overflow.
    kernel.tasks.get_mut(0).inner.syscall_times[SYSCALL_GETPID] = u32::MAX;
    assert!(!admits(&kernel, SYSCALL_GETPID, [0, 0, 0], &nothing));
    // No running task.
    sys_yield(&mut kernel);
    assert!(!admits(&kernel, SYSCALL_YIELD, [0, 0, 0], &nothing));
}

#[test]
fn a_child_may_exit_where_the_initial_process_may_not() {
    let mut kernel = running();
    assert_eq!(fork(&mut kernel, 2), 1);
    switch_to(&mut kernel, 1);
    assert!(admits(&kernel, SYSCALL_EXIT, [0, 0, 0], &SyscallInput::Nothing));
}

#[test]
fn exit_code_is_the_low_half_of_the_argument() {
    let mut kernel = running();
    assert_eq!(fork(&mut kernel, 2), 1);
    switch_to(&mut kernel, 1);
    call(&mut kernel, SYSCALL_EXIT, [usize::MAX, 0, 0]);
    assert_eq!(task(&kernel, 1).inner.exit_code, -1);
}

#[test]
fn stride_scheduling_through_the_kernel() {
    let mut kernel = running();
    assert_eq!(fork(&mut kernel, 2), 1);
    assert_eq!(fork(&mut kernel, 3), 2);
    switch_to(&mut kernel, 1);
    assert_eq!(set_priority(&mut kernel, 2), 2);
    switch_to(&mut kernel, 2);
    assert_eq!(set_priority(&mut kernel, 4), 4);
    let mut runs: [usize; 3] = [0, 0, 0];
    for _ in 0..300 {
        sys_yield(&mut kernel);
        run_tasks(&mut kernel, LATER);
        runs[kernel.processor.current.unwrap()] += 1;
        check_invariant(&kernel);
    }
    assert_eq!(runs[0] + runs[1] + runs[2], 300);
    // With the strides 15, 127 and 63 no task gets more than a few strides
    // ahead of another.
    assert!((runs[0] * 15).abs_diff(runs[1] * 127) <= 3 * 127);
    assert!((runs[0] * 15).abs_diff(runs[2] * 63) <= 3 * 127);
    assert!((runs[1] * 127).abs_diff(runs[2] * 63) <= 3 * 127);
    assert!(runs[0] > runs[2] && runs[2] > runs[1] && runs[1] > 0);
}
