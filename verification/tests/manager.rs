use os5::config::BIG_STRIDE;
use os5::mm::MemorySet;
use os5::task::manager::{add_task, fetch_task, TaskManager};
use os5::task::pid::PidAllocator;
use os5::task::table::TaskTable;
use os5::task::task::{ElfImage, TaskControlBlock, DEFAULT_PRIORITY};
use os5::trap::TrapEntry;

fn image(token: usize) -> ElfImage {
    ElfImage { memory_set: MemorySet::new_bare(token), trap_cx_ppn: 0, user_sp: 0, entry_point: 0 }
}

/// A table of tasks `0 .. priorities.len()`, task `i` with `priorities[i]` and
/// `passes[i]`.
fn table(priorities: &[u8], passes: &[usize]) -> TaskTable {
    let mut pids = PidAllocator::new();
    let mut kernel_space = MemorySet::new_bare(0);
    let entry = TrapEntry { trap_handler: 0, trap_return: 0 };
    let mut tasks = TaskTable::new();
    for i in 0..priorities.len() {
        let mut task = TaskControlBlock::new(image(i), &mut pids, &mut kernel_space, entry);
        task.inner.priority = priorities[i];
        task.inner.pass = passes[i];
        tasks.insert(task);
    }
    tasks
}

fn pass_of(tasks: &TaskTable, pid: usize) -> usize {
    tasks.get(pid).inner.pass
}

#[test]
fn stride_budget() {
    assert_eq!(BIG_STRIDE, 255);
    assert_eq!(DEFAULT_PRIORITY, 16);
}

#[test]
fn fetch_on_an_empty_queue_yields_nothing() {
    let mut manager = TaskManager::new();
    let mut tasks = table(&[16], &[0]);
    assert_eq!(manager.fetch(&mut tasks), None);
    assert_eq!(pass_of(&tasks, 0), 0);
    assert!(manager.ready_queue.is_empty());
}

#[test]
fn add_appends_to_the_tail() {
    let mut manager = TaskManager::new();
    manager.add(2);
    manager.add(0);
    add_task(&mut manager, 1);
    assert_eq!(manager.ready_queue, vec![2, 0, 1]);
}

#[test]
fn fetch_takes_the_least_pass_and_moves_it_on() {
    let mut manager = TaskManager::new();
    let mut tasks = table(&[16, 2, 4], &[30, 10, 20]);
    manager.add(0);
    manager.add(1);
    manager.add(2);
    assert_eq!(manager.fetch(&mut tasks), Some(1));
    assert_eq!(pass_of(&tasks, 1), 10 + 127);
    assert_eq!(manager.ready_queue, vec![0, 2]);
    assert_eq!(fetch_task(&mut manager, &mut tasks), Some(2));
    assert_eq!(pass_of(&tasks, 2), 20 + 63);
    assert_eq!(manager.fetch(&mut tasks), Some(0));
    assert_eq!(pass_of(&tasks, 0), 30 + 15);
    assert_eq!(manager.fetch(&mut tasks), None);
}

#[test]
fn stride_is_the_budget_divided_by_the_priority() {
    let priorities: [u8; 6] = [2, 3, 16, 128, 254, 255];
    let strides: [usize; 6] = [127, 85, 15, 1, 1, 1];
    for i in 0..6 {
        let mut manager = TaskManager::new();
        let mut tasks = table(&[priorities[i]], &[1000]);
        manager.add(0);
        assert_eq!(manager.fetch(&mut tasks), Some(0));
        assert_eq!(pass_of(&tasks, 0), 1000 + strides[i]);
    }
}

#[test]
fn among_equal_passes_the_earliest_in_the_queue_wins() {
    let mut manager = TaskManager::new();
    let mut tasks = table(&[16, 16, 16], &[5, 5, 5]);
    manager.add(2);
    manager.add(0);
    manager.add(1);
    assert_eq!(manager.fetch(&mut tasks), Some(2));
    assert_eq!(manager.fetch(&mut tasks), Some(0));
    assert_eq!(manager.fetch(&mut tasks), Some(1));
}

#[test]
fn passes_compare_as_signed_eight_bit_differences() {
    // 250 is 11 steps behind 5, once 5 is read as 261.
    let mut manager = TaskManager::new();
    let mut tasks = table(&[16, 16], &[5, 250]);
    manager.add(0);
    manager.add(1);
    assert_eq!(manager.fetch(&mut tasks), Some(1));

    // Only the low eight bits of the difference count.
    let mut manager = TaskManager::new();
    let mut tasks = table(&[16, 16], &[0x1_0000, 0x20ff]);
    manager.add(0);
    manager.add(1);
    assert_eq!(manager.fetch(&mut tasks), Some(1));

    // A difference of exactly 128 reads as negative, one of 127 does not.
    let mut manager = TaskManager::new();
    let mut tasks = table(&[16, 16], &[0, 128]);
    manager.add(0);
    manager.add(1);
    assert_eq!(manager.fetch(&mut tasks), Some(1));
    let mut manager = TaskManager::new();
    let mut tasks = table(&[16, 16], &[0, 127]);
    manager.add(0);
    manager.add(1);
    assert_eq!(manager.fetch(&mut tasks), Some(0));
}

#[test]
fn pass_wraps_around() {
    let mut manager = TaskManager::new();
    let mut tasks = table(&[2], &[usize::MAX - 26]);
    manager.add(0);
    assert_eq!(manager.fetch(&mut tasks), Some(0));
    assert_eq!(pass_of(&tasks, 0), 100);
}

#[test]
fn stride_fairness() {
    let mut manager = TaskManager::new();
    let mut tasks = table(&[2, 4], &[0, 0]);
    manager.add(0);
    manager.add(1);
    let mut runs: [usize; 2] = [0, 0];
    for _ in 0..600 {
        let picked: usize = manager.fetch(&mut tasks).unwrap();
        runs[picked] += 1;
        manager.add(picked);
    }
    assert_eq!(runs, [199, 401]);
    assert!(runs[1] * 100 >= runs[0] * 2 * 95 && runs[1] * 100 <= runs[0] * 2 * 105);
    let lag: usize = (runs[0] * 127).abs_diff(runs[1] * 63);
    assert!(lag <= 127);
}

#[test]
fn three_tasks_share_by_priority() {
    let mut manager = TaskManager::new();
    let mut tasks = table(&[2, 4, 16], &[0, 0, 0]);
    manager.add(0);
    manager.add(1);
    manager.add(2);
    let mut runs: [usize; 3] = [0, 0, 0];
    for _ in 0..600 {
        let picked: usize = manager.fetch(&mut tasks).unwrap();
        runs[picked] += 1;
        manager.add(picked);
    }
    assert_eq!(runs, [53, 106, 441]);
}
