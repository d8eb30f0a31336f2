use os5::config::TRAMPOLINE;
use os5::mm::MemorySet;
use os5::task::context::TaskContext;
use os5::task::pid::PidAllocator;
use os5::task::processor::Processor;
use os5::task::table::TaskTable;
use os5::task::task::{ElfImage, TaskControlBlock, TaskStatus};
use os5::trap::{TrapContext, TrapEntry, REG_A0, REG_SP};

const ENTRY: TrapEntry = TrapEntry { trap_handler: 0x100, trap_return: 0x200 };

fn image(token: usize) -> ElfImage {
    let mut memory_set = MemorySet::new_bare(token);
    memory_set.insert_framed_area(0x1000, 0x3000, 0x1e);
    ElfImage { memory_set, trap_cx_ppn: 40 + token, user_sp: 0x3000, entry_point: 0x1000 + token }
}

#[test]
fn a_new_task_is_ready_with_the_default_priority() {
    let mut pids = PidAllocator::new();
    let mut kernel_space = MemorySet::new_bare(8);
    let task = TaskControlBlock::new(image(1), &mut pids, &mut kernel_space, ENTRY);
    assert_eq!(task.getpid(), 0);
    assert_eq!(task.kernel_stack.pid, 0);
    assert_eq!(task.inner.task_status, TaskStatus::Ready);
    assert!(!task.inner.is_zombie());
    assert_eq!(task.inner.priority, 16);
    assert_eq!(task.inner.pass, 0);
    assert_eq!(task.inner.parent, None);
    assert!(task.inner.children.is_empty());
    assert_eq!(task.inner.exit_code, 0);
    assert_eq!(task.inner.start_time, 0);
    assert!(task.inner.syscall_times.iter().all(|n| *n == 0));
    assert_eq!(task.inner.base_size, 0x3000);
    assert_eq!(task.inner.trap_cx_ppn, 41);
    assert_eq!(task.inner.get_user_token(), 1);
    assert_eq!(task.inner.trap_cx.sepc, 0x1001);
    assert_eq!(task.inner.trap_cx.x[REG_SP], 0x3000);
    assert_eq!(task.inner.trap_cx.kernel_satp, 8);
    assert_eq!(task.inner.trap_cx.kernel_sp, TRAMPOLINE);
    assert_eq!(task.inner.trap_cx.trap_handler, 0x100);
    assert_eq!(task.inner.task_cx.ra, 0x200);
    assert_eq!(task.inner.task_cx.sp, TRAMPOLINE);
    assert_eq!(pids.current, 1);
    assert_eq!(kernel_space.areas.len(), 1);
}

#[test]
fn fork_appends_the_child_and_gives_it_its_own_stack() {
    let mut pids = PidAllocator::new();
    let mut kernel_space = MemorySet::new_bare(8);
    let mut parent = TaskControlBlock::new(image(1), &mut pids, &mut kernel_space, ENTRY);
    parent.inner.trap_cx.x[REG_A0] = 33;
    parent.inner.priority = 9;
    parent.inner.pass = 500;
    parent.inner.base_size = 0x4444;
    let first = parent.fork(2, 70, &mut pids, &mut kernel_space, ENTRY);
    let second = parent.fork(3, 71, &mut pids, &mut kernel_space, ENTRY);
    assert_eq!((first.getpid(), second.getpid()), (1, 2));
    assert_eq!(parent.inner.children, vec![1, 2]);
    assert_eq!(first.inner.parent, Some(0));
    assert_eq!(first.inner.memory_set.token, 2);
    assert_eq!(first.inner.memory_set.areas, parent.inner.memory_set.areas);
    assert_eq!(first.inner.trap_cx_ppn, 70);
    assert_eq!(first.inner.base_size, 0x4444);
    assert_eq!(first.inner.trap_cx.x, parent.inner.trap_cx.x);
    assert_eq!(first.inner.trap_cx.sepc, parent.inner.trap_cx.sepc);
    assert_eq!(first.inner.trap_cx.kernel_sp, TRAMPOLINE - 0x3000);
    assert_eq!(second.inner.trap_cx.kernel_sp, TRAMPOLINE - 0x6000);
    assert_eq!(first.inner.task_cx.sp, TRAMPOLINE - 0x3000);
    assert_eq!((first.inner.priority, first.inner.pass), (16, 0));
    assert_eq!(first.inner.task_status, TaskStatus::Ready);
    assert_eq!(parent.inner.trap_cx.kernel_sp, TRAMPOLINE);
    assert_eq!((parent.inner.priority, parent.inner.pass), (9, 500));
    assert_eq!(kernel_space.areas.len(), 3);
}

#[test]
fn spawn_starts_the_program_in_a_child() {
    let mut pids = PidAllocator::new();
    let mut kernel_space = MemorySet::new_bare(8);
    let mut parent = TaskControlBlock::new(image(1), &mut pids, &mut kernel_space, ENTRY);
    parent.inner.base_size = 0x5555;
    let child = parent.spawn(image(4), &mut pids, &mut kernel_space, ENTRY);
    assert_eq!(child.getpid(), 1);
    assert_eq!(parent.inner.children, vec![1]);
    assert_eq!(child.inner.parent, Some(0));
    assert_eq!(child.inner.memory_set.token, 4);
    assert_eq!(child.inner.trap_cx_ppn, 44);
    assert_eq!(child.inner.trap_cx.sepc, 0x1004);
    assert_eq!(child.inner.trap_cx.x[REG_SP], 0x3000);
    assert_eq!(child.inner.trap_cx.kernel_sp, TRAMPOLINE - 0x3000);
    assert_eq!(child.inner.trap_cx.kernel_satp, 8);
    assert_eq!(child.inner.base_size, 0x5555);
}

#[test]
fn exec_keeps_the_identity() {
    let mut pids = PidAllocator::new();
    let mut kernel_space = MemorySet::new_bare(8);
    let _first = TaskControlBlock::new(image(1), &mut pids, &mut kernel_space, ENTRY);
    let mut task = TaskControlBlock::new(image(2), &mut pids, &mut kernel_space, ENTRY);
    task.inner.pass = 77;
    task.inner.exit_code = 5;
    task.exec(image(6), &kernel_space, ENTRY);
    assert_eq!(task.getpid(), 1);
    assert_eq!(task.inner.memory_set.token, 6);
    assert_eq!(task.inner.trap_cx_ppn, 46);
    assert_eq!(task.inner.trap_cx.sepc, 0x1006);
    assert_eq!(task.inner.trap_cx.kernel_sp, TRAMPOLINE - 0x3000);
    assert_eq!(task.inner.pass, 77);
    assert_eq!(task.inner.exit_code, 5);
    assert_eq!(pids.current, 2);
    assert_eq!(kernel_space.areas.len(), 2);
}

#[test]
fn inner_access_reaches_the_trap_frame() {
    let mut pids = PidAllocator::new();
    let mut kernel_space = MemorySet::new_bare(8);
    let mut task = TaskControlBlock::new(image(1), &mut pids, &mut kernel_space, ENTRY);
    task.inner_exclusive_access().get_trap_cx().x[REG_A0] = 12;
    task.inner_exclusive_access().task_status = TaskStatus::Zombie;
    assert_eq!(task.inner.trap_cx.x[10], 12);
    assert!(task.inner.is_zombie());
}

#[test]
fn contexts() {
    let zero = TaskContext::zero_init();
    assert_eq!((zero.ra, zero.sp, zero.s), (0, 0, [0; 12]));
    let primed = TaskContext::goto_trap_return(0x9000, 0x4000);
    assert_eq!((primed.ra, primed.sp, primed.s), (0x4000, 0x9000, [0; 12]));
    let mut cx = TrapContext::app_init_context(1, 2, 3, 4, 5);
    assert_eq!((cx.sepc, cx.x[2], cx.kernel_satp, cx.kernel_sp, cx.trap_handler), (1, 2, 3, 4, 5));
    assert_eq!(cx.x.iter().filter(|r| **r != 0).count(), 1);
    cx.set_sp(9);
    assert_eq!(cx.x[2], 9);
}

#[test]
fn processor_holds_the_current_task() {
    let mut processor = Processor::new();
    assert_eq!(processor.current(), None);
    processor.current = Some(3);
    processor.get_idle_task_cx_ptr().sp = 0x80;
    assert_eq!(processor.current(), Some(3));
    assert_eq!(processor.take_current(), Some(3));
    assert_eq!(processor.current(), None);
    assert_eq!(processor.idle_task_cx.sp, 0x80);
}

#[test]
fn table_slots_follow_the_identifiers() {
    let mut pids = PidAllocator::new();
    let mut kernel_space = MemorySet::new_bare(8);
    let mut tasks = TaskTable::new();
    assert_eq!(tasks.len(), 0);
    assert!(!tasks.contains(0));
    tasks.insert(TaskControlBlock::new(image(1), &mut pids, &mut kernel_space, ENTRY));
    tasks.insert(TaskControlBlock::new(image(2), &mut pids, &mut kernel_space, ENTRY));
    assert_eq!(tasks.len(), 2);
    assert_eq!(tasks.get(1).inner.memory_set.token, 2);
    tasks.get_mut(1).inner.exit_code = 4;
    let taken = tasks.remove(0);
    assert_eq!(taken.getpid(), 0);
    assert!(!tasks.contains(0));
    assert!(tasks.contains(1));
    assert!(!tasks.contains(2));
    assert_eq!(tasks.len(), 2);
    assert_eq!(tasks.get(1).inner.exit_code, 4);
    tasks.insert(taken);
    assert!(tasks.contains(0));
}
