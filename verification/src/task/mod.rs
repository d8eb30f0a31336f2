//! Task management: the kernel state and the operations that create, schedule,
//! suspend and end tasks.

pub mod context;
pub mod fairness;
pub mod kernel;
pub mod manager;
pub mod pid;
pub mod processor;
pub mod switch;
pub mod table;
pub mod task;

pub use self::context::TaskContext;
pub use self::kernel::{Kernel, KernelView};
pub use self::manager::add_task;
pub use self::pid::{KernelStack, PidHandle, pid_alloc};
pub use self::processor::{
    current_task,
    current_trap_cx,
    current_user_token,
    get_run_time,
    get_syscall_times,
    mmap,
    munmap,
    run_tasks,
    schedule,
    set_priority,
    take_current_task,
    update_syscall_times,
};
pub use self::task::{TaskControlBlock, TaskStatus};

use vstd::prelude::*;
use crate::config::lemma_layout;
use self::kernel::{
    INITPROC_PID,
    lemma_create_inv,
    lemma_frame_pids,
    lemma_frame_stacks,
    lemma_frame_tree,
    lemma_next_pid,
    lemma_stack_slot_free,
};
use self::processor::Processor;
use self::switch::{ContextSlot, Switch};
use self::task::{ElfImage, TaskView};

verus! {

impl KernelView {
    /// The state after the running task gave up the processor, and the switch
    /// that this asks for: the task is ready again and the last in the ready
    /// queue, the processor has no current task, and the switch goes from the
    /// task to the idle control flow.
    pub open spec fn suspend(self) -> (KernelView, Switch) {
        let pid = self.current->0;
        (
            KernelView {
                tasks: self.tasks.insert(
                    pid,
                    TaskView { task_status: TaskStatus::Ready, ..self.tasks[pid] },
                ),
                ready_queue: self.ready_queue.push(pid),
                current: None,
                ..self
            },
            Switch { from: ContextSlot::Task(pid), to: ContextSlot::Idle },
        )
    }

    /// The tasks after the first `n` children of `pid` were handed to the
    /// initial process: each of them has the initial process as its parent, and
    /// the initial process lists them after its own children.
    pub open spec fn reparent(self, pid: usize, n: int) -> Map<usize, TaskView> {
        let kids = self.tasks[pid].children.subrange(0, n);
        Map::new(
            |q: usize| self.live(q),
            |q: usize|
                if q == INITPROC_PID {
                    TaskView {
                        children: self.tasks[INITPROC_PID].children + kids,
                        ..self.tasks[INITPROC_PID]
                    }
                } else if kids.contains(q) {
                    TaskView { parent: Some(INITPROC_PID), ..self.tasks[q] }
                } else {
                    self.tasks[q]
                },
        )
    }

    /// The state after the running task exited with `exit_code`, and the switch
    /// that this asks for: the task is a zombie with that exit code, without
    /// children and without mapped pages; its children are handed to the initial
    /// process; the processor has no current task; and the switch goes to the idle
    /// control flow without saving the registers of the task.
    pub open spec fn exit(self, exit_code: i32) -> (KernelView, Switch) {
        let pid = self.current->0;
        (
            KernelView {
                tasks: self.reparent(pid, self.tasks[pid].children.len() as int).insert(
                    pid,
                    TaskView {
                        task_status: TaskStatus::Zombie,
                        exit_code,
                        children: Seq::empty(),
                        memory_set: self.tasks[pid].memory_set.clear(),
                        ..self.tasks[pid]
                    },
                ),
                current: None,
                ..self
            },
            Switch { from: ContextSlot::Unused, to: ContextSlot::Idle },
        )
    }

    /// The initial process as it is created from the program `elf`.
    pub open spec fn initproc(self, elf: ElfImage) -> TaskView {
        TaskView::created(
            INITPROC_PID,
            None,
            elf.memory_set@,
            elf.trap_cx_ppn,
            TaskView::initial_trap_cx(INITPROC_PID, elf, self.kernel_space.token, self.trap_entry),
            elf.user_sp,
            self.trap_entry.trap_return,
        )
    }
}

/// The children of a live task are live, differ from it and from the initial
/// process, differ from each other, and have it as their parent.
pub proof fn lemma_children(k: KernelView, pid: usize)
    requires
        k.inv(),
        k.live(pid),
    ensures
        k.tasks[pid].children.no_duplicates(),
        forall|i: int|
            0 <= i < k.tasks[pid].children.len() ==> k.live(#[trigger] k.tasks[pid].children[i])
                && k.tasks[pid].children[i] != pid && k.tasks[pid].children[i] != INITPROC_PID
                && k.tasks[k.tasks[pid].children[i]].parent == Some(pid),
{
    reveal(KernelView::inv);
    assert forall|i: int| 0 <= i < k.tasks[pid].children.len() implies k.live(
        #[trigger] k.tasks[pid].children[i],
    ) && k.tasks[pid].children[i] != pid && k.tasks[pid].children[i] != INITPROC_PID
        && k.tasks[k.tasks[pid].children[i]].parent == Some(pid) by {
        let c = k.tasks[pid].children[i];
        assert(k.live(c));
        assert(k.tasks[c].inv());
        assert(k.tasks[c].pid == c);
    }
}

/// After the running task gave up the processor no task is running.
proof fn lemma_suspend_processor(k: KernelView)
    requires
        k.processor_inv(),
        k.current is Some,
    ensures
        k.suspend().0.processor_inv(),
{
    let k2 = k.suspend().0;
    assert forall|q: usize| #[trigger]
        k2.live(q) && k2.tasks[q].task_status == TaskStatus::Running implies k2.current == Some(
        q,
    ) by {
        assert(k.live(q));
    }
}

/// After the running task gave up the processor the ready queue holds the ready
/// tasks, each once.
proof fn lemma_suspend_queue(k: KernelView)
    requires
        k.queue_inv(),
        k.current is Some,
        k.live(k.current->0),
        k.tasks[k.current->0].task_status == TaskStatus::Running,
    ensures
        k.suspend().0.queue_inv(),
{
    let k2 = k.suspend().0;
    let pid = k.current->0;
    let n = k.ready_queue.len() as int;
    assert forall|i: int| 0 <= i < n implies k.ready_queue[i] != pid by {
        assert(k.live(k.ready_queue[i]));
    }
    assert forall|i: int| 0 <= i < k2.ready_queue.len() implies k2.live(
        #[trigger] k2.ready_queue[i],
    ) && k2.tasks[k2.ready_queue[i]].task_status == TaskStatus::Ready by {
        if i < n {
            assert(k.live(k.ready_queue[i]));
        }
    }
    assert forall|q: usize| #[trigger]
        k2.live(q) && k2.tasks[q].task_status == TaskStatus::Ready implies k2.ready_queue.contains(
        q,
    ) by {
        if q == pid {
            assert(k2.ready_queue[n] == pid);
        } else {
            assert(k.live(q));
            let i = choose|i: int| 0 <= i < n && k.ready_queue[i] == q;
            assert(k2.ready_queue[i] == q);
        }
    }
    assert forall|i: int, j: int|
        0 <= i < k2.ready_queue.len() && 0 <= j < k2.ready_queue.len() && i
            != j implies k2.ready_queue[i] != k2.ready_queue[j] by {
        if i < n && j < n {
            assert(k.ready_queue[i] != k.ready_queue[j]);
        }
    }
}

/// After the running task gave up the processor each task meets the task
/// invariant as before.
proof fn lemma_suspend_tasks(k: KernelView)
    requires
        k.task_inv(),
        k.current is Some,
        k.live(k.current->0),
    ensures
        k.suspend().0.task_inv(),
{
    let k2 = k.suspend().0;
    assert forall|q: usize| #[trigger] k2.live(q) implies k2.tasks[q].inv() by {
        assert(k.live(q));
        assert(k.tasks[q].inv());
    }
}

/// Giving up the processor keeps the invariant.
pub proof fn lemma_suspend_inv(k: KernelView)
    requires
        k.inv(),
        k.current is Some,
    ensures
        k.suspend().0.inv(),
{
    let k2 = k.suspend().0;
    Kernel::lemma_current(k);
    assert(k.pids_inv() && k.stacks_inv() && k.processor_inv() && k.queue_inv() && k.tree_inv()
        && k.task_inv()) by {
        reveal(KernelView::inv);
    }
    assert(k.same_identities(k2) && k.same_kinship(k2));
    lemma_frame_pids(k, k2);
    lemma_frame_stacks(k, k2);
    lemma_frame_tree(k, k2);
    lemma_suspend_processor(k);
    lemma_suspend_queue(k);
    lemma_suspend_tasks(k);
    assert(k2.inv()) by {
        reveal(KernelView::inv);
    }
}

#[verifier::rlimit(30)]
proof fn lemma_exit_tree(k: KernelView, exit_code: i32)
    requires
        k.inv(),
        k.current is Some,
        k.current != Some(INITPROC_PID),
    ensures
        k.exit(exit_code).0.tree_inv(),
{
    reveal(KernelView::inv);
    let k2 = k.exit(exit_code).0;
    let pid = k.current->0;
    let kids = k.tasks[pid].children;
    let init_kids = k.tasks[INITPROC_PID].children;
    lemma_children(k, pid);
    assert(k.live(pid));
    assert(k.pid_live(pid));
    assert(k.live(INITPROC_PID));
    lemma_children(k, INITPROC_PID);
    assert(kids.subrange(0, kids.len() as int) =~= kids);
    assert forall|q: usize| #[trigger] k2.live(q) == k.live(q) by {}
    assert(k2.tasks[INITPROC_PID].children == init_kids + kids);
    assert forall|q: usize| #[trigger] k2.live(q) implies (k2.tasks[q].parent is None <==> q
        == INITPROC_PID) by {
        assert(k.live(q));
    }
    assert forall|q: usize| #[trigger] k2.live(q) && k2.tasks[q].parent is Some implies k2.live(
        k2.tasks[q].parent->0,
    ) && k2.tasks[k2.tasks[q].parent->0].children.contains(q) by {
        assert(k.live(q));
        if q != pid && kids.contains(q) {
            let i = choose|i: int| 0 <= i < kids.len() && kids[i] == q;
            assert((init_kids + kids)[init_kids.len() + i] == q);
        } else {
            let p = k.tasks[q].parent->0;
            assert(k.live(p));
            assert(p != pid) by {
                if p == pid {
                    assert(kids.contains(q));
                    assert(q == pid);
                    assert(k.tasks[pid].inv());
                    assert(k.tasks[pid].pid == pid);
                }
            }
            let i = choose|i: int|
                0 <= i < k.tasks[p].children.len() && k.tasks[p].children[i] == q;
            if p == INITPROC_PID {
                assert((init_kids + kids)[i] == q);
            } else {
                assert(k2.tasks[p].children == k.tasks[p].children);
            }
        }
    }
    assert forall|q: usize, i: int|
        k2.live(q) && 0 <= i < k2.tasks[q].children.len() implies k2.live(
        #[trigger] k2.tasks[q].children[i],
    ) && k2.tasks[k2.tasks[q].children[i]].parent == Some(q) by {
        assert(k.live(q));
        if q == INITPROC_PID {
            if i < init_kids.len() {
                let c = init_kids[i];
                assert(k.live(c));
                assert(k2.tasks[c].parent == Some(INITPROC_PID));
            } else {
                let c = kids[i - init_kids.len()];
                assert(k.live(c));
                assert(kids.contains(c));
            }
        } else {
            let c = k.tasks[q].children[i];
            assert(k2.tasks[q].children == k.tasks[q].children);
            assert(k.live(c));
            assert(k.tasks[c].parent == Some(q));
            if c != pid {
                if kids.contains(c) {
                    let j = choose|j: int| 0 <= j < kids.len() && kids[j] == c;
                    assert(k.tasks[kids[j]].parent == Some(pid));
                }
            }
        }
    }
    assert forall|q: usize| #[trigger] k2.live(q) implies k2.tasks[q].children.no_duplicates() by {
        assert(k.live(q));
        if q == INITPROC_PID {
            let all = init_kids + kids;
            assert forall|i: int, j: int|
                0 <= i < all.len() && 0 <= j < all.len() && i != j implies all[i] != all[j] by {
                if i < init_kids.len() && j >= init_kids.len() {
                    assert(k.tasks[init_kids[i]].parent == Some(INITPROC_PID));
                    assert(k.tasks[kids[j - init_kids.len()]].parent == Some(pid));
                }
                if j < init_kids.len() && i >= init_kids.len() {
                    assert(k.tasks[init_kids[j]].parent == Some(INITPROC_PID));
                    assert(k.tasks[kids[i - init_kids.len()]].parent == Some(pid));
                }
            }
        }
    }
}

/// What exiting does to the single tasks.
proof fn lemma_exit_fields(k: KernelView, exit_code: i32)
    requires
        k.inv(),
        k.current is Some,
        k.current != Some(INITPROC_PID),
    ensures
        forall|q: usize| #[trigger] k.exit(exit_code).0.live(q) == k.live(q),
        forall|q: usize| #[trigger]
            k.live(q) ==> ({
                let t = k.tasks[q];
                let t2 = k.exit(exit_code).0.tasks[q];
                &&& t2.pid == t.pid
                &&& t2.stack_pid == t.stack_pid
                &&& t2.priority == t.priority
                &&& t2.syscall_times == t.syscall_times
                &&& q != k.current->0 ==> t2.task_status == t.task_status && t2.memory_set
                    == t.memory_set && (t2.parent == t.parent || t2.parent == Some(INITPROC_PID))
                &&& q != k.current->0 && q != INITPROC_PID ==> t2.children == t.children
                &&& q == k.current->0 ==> t2.task_status == TaskStatus::Zombie && t2.children.len()
                    == 0 && t2.memory_set.areas.len() == 0 && t2.memory_set.wf() && t2.parent
                    == t.parent
            }),
{
    let k2 = k.exit(exit_code).0;
    let pid = k.current->0;
    Kernel::lemma_current(k);
    lemma_children(k, pid);
    assert forall|q: usize| #[trigger] k2.live(q) == k.live(q) by {}
}

proof fn lemma_exit_sched(k: KernelView, k2: KernelView, pid: usize)
    requires
        k.processor_inv(),
        k.queue_inv(),
        k.current == Some(pid),
        k2.current is None,
        k2.ready_queue == k.ready_queue,
        forall|q: usize| #[trigger] k2.live(q) == k.live(q),
        forall|q: usize| #[trigger]
            k.live(q) && q != pid ==> k2.tasks[q].task_status == k.tasks[q].task_status,
        k2.tasks[pid].task_status == TaskStatus::Zombie,
    ensures
        k2.processor_inv(),
        k2.queue_inv(),
{
    assert forall|q: usize| #[trigger]
        k2.live(q) && k2.tasks[q].task_status == TaskStatus::Running implies k2.current == Some(
        q,
    ) by {
        assert(k.live(q));
    }
    assert forall|i: int| 0 <= i < k2.ready_queue.len() implies k2.live(
        #[trigger] k2.ready_queue[i],
    ) && k2.tasks[k2.ready_queue[i]].task_status == TaskStatus::Ready by {
        assert(k.live(k.ready_queue[i]));
    }
    assert forall|q: usize| #[trigger]
        k2.live(q) && k2.tasks[q].task_status == TaskStatus::Ready implies k2.ready_queue.contains(
        q,
    ) by {
        assert(k.live(q));
    }
}

proof fn lemma_exit_rest(k: KernelView, exit_code: i32)
    requires
        k.inv(),
        k.current is Some,
        k.current != Some(INITPROC_PID),
    ensures
        k.exit(exit_code).0.pids_inv(),
        k.exit(exit_code).0.stacks_inv(),
        k.exit(exit_code).0.processor_inv(),
        k.exit(exit_code).0.queue_inv(),
        k.exit(exit_code).0.task_inv(),
{
    let k2 = k.exit(exit_code).0;
    let pid = k.current->0;
    lemma_exit_fields(k, exit_code);
    Kernel::lemma_current(k);
    assert(k.pids_inv() && k.stacks_inv() && k.processor_inv() && k.queue_inv() && k.task_inv())
        by {
        reveal(KernelView::inv);
    }
    assert(k.same_identities(k2));
    lemma_frame_pids(k, k2);
    lemma_frame_stacks(k, k2);
    lemma_exit_sched(k, k2, pid);
    assert forall|q: usize| #[trigger] k2.live(q) implies k2.tasks[q].inv() by {
        assert(k.live(q));
        assert(k.tasks[q].inv());
        assert(k.tasks[q].pid == q);
    }
}

/// Exiting keeps the invariant, for every task but the initial process.
pub proof fn lemma_exit_inv(k: KernelView, exit_code: i32)
    requires
        k.inv(),
        k.current is Some,
        k.current != Some(INITPROC_PID),
    ensures
        k.exit(exit_code).0.inv(),
{
    lemma_exit_tree(k, exit_code);
    lemma_exit_rest(k, exit_code);
    reveal(KernelView::inv);
}

/// The running task gives up the processor: it becomes ready again and goes to
/// the end of the ready queue. Hands back the switch from the task to the idle
/// control flow, which saves the task's registers for its next turn.
pub fn suspend_current_and_run_next(kernel: &mut Kernel) -> (switch: Switch)
    requires
        old(kernel).wf(),
        old(kernel)@.current is Some,
    ensures
        final(kernel)@ == old(kernel)@.suspend().0,
        switch == old(kernel)@.suspend().1,
        final(kernel).wf(),
{
    proof {
        Kernel::lemma_current(kernel@);
        lemma_suspend_inv(kernel@);
    }
    let task: usize = take_current_task(&mut kernel.processor).unwrap();
    kernel.tasks.get_mut(task).inner.task_status = TaskStatus::Ready;
    add_task(&mut kernel.task_manager, task);
    schedule(ContextSlot::Task(task))
}

/// The running task, which is not the initial process, exits with `exit_code`:
/// it becomes a zombie that keeps its control block until its parent reaps it,
/// its children go to the initial process, and its pages are unmapped. Hands
/// back the switch to the idle control flow, which saves nothing of the task.
pub fn exit_current_and_run_next(kernel: &mut Kernel, exit_code: i32) -> (switch: Switch)
    requires
        old(kernel).wf(),
        old(kernel)@.current is Some,
        old(kernel)@.current != Some(INITPROC_PID),
    ensures
        final(kernel)@ == old(kernel)@.exit(exit_code).0,
        switch == old(kernel)@.exit(exit_code).1,
        final(kernel).wf(),
{
    proof {
        Kernel::lemma_current(kernel@);
        lemma_exit_inv(kernel@, exit_code);
        lemma_children(kernel@, kernel@.current->0);
    }
    let task: usize = take_current_task(&mut kernel.processor).unwrap();
    let inner = kernel.tasks.get_mut(task).inner_exclusive_access();
    inner.task_status = TaskStatus::Zombie;
    inner.exit_code = exit_code;
    let ghost marked = kernel@;
    let ghost kids = marked.tasks[task].children;
    let n: usize = kernel.tasks.get(task).inner.children.len();
    let mut i: usize = 0;
    assert(kernel@.tasks =~= marked.reparent(task, 0)) by {
        assert(marked.tasks[INITPROC_PID].children + kids.subrange(0, 0)
            =~= marked.tasks[INITPROC_PID].children);
    }
    while i < n
        invariant
            i <= n,
            n == kids.len(),
            task != INITPROC_PID,
            marked.live(task),
            marked.live(INITPROC_PID),
            kids == marked.tasks[task].children,
            kids.no_duplicates(),
            forall|j: int|
                0 <= j < kids.len() ==> marked.live(#[trigger] kids[j]) && kids[j] != task
                    && kids[j] != INITPROC_PID,
            kernel.tasks@ == marked.reparent(task, i as int),
            kernel.tasks.slots@.len() == old(kernel).tasks.slots@.len(),
            kernel.processor == idle_processor(old(kernel).processor),
            kernel.task_manager == old(kernel).task_manager,
            kernel.pid_allocator == old(kernel).pid_allocator,
            kernel.kernel_space == old(kernel).kernel_space,
            kernel.trap_entry == old(kernel).trap_entry,
        decreases n - i,
    {
        let child: usize = kernel.tasks.get(task).inner.children[i];
        assert(child == kids[i as int]);
        let ghost t0 = kernel.tasks@;
        assert(t0[INITPROC_PID].children == marked.tasks[INITPROC_PID].children + kids.subrange(
            0,
            i as int,
        ));
        assert(t0[child] == marked.tasks[child]);
        kernel.tasks.get_mut(child).inner.parent = Some(INITPROC_PID);
        let ghost t1 = kernel.tasks@;
        assert(t1 == t0.insert(child, TaskView { parent: Some(INITPROC_PID), ..t0[child] }));
        kernel.tasks.get_mut(INITPROC_PID).inner.children.push(child);
        let ghost t2 = kernel.tasks@;
        assert(t2 == t1.insert(
            INITPROC_PID,
            TaskView {
                children: t1[INITPROC_PID].children.push(child),
                ..t1[INITPROC_PID]
            },
        ));
        proof {
            let before = kids.subrange(0, i as int);
            let after = kids.subrange(0, i + 1);
            let init = marked.tasks[INITPROC_PID];
            assert(after =~= before.push(child));
            assert(!before.contains(child));
            assert(init.children + after =~= (init.children + before).push(child));
            assert forall|q: usize| after.contains(q) <==> (before.contains(q) || q == child) by {
                if before.contains(q) {
                    let j = choose|j: int| 0 <= j < before.len() && before[j] == q;
                    assert(after[j] == q);
                }
                if q == child {
                    assert(after[i as int] == q);
                }
            }
            let target = marked.reparent(task, i + 1);
            assert forall|q: usize| marked.live(q) implies #[trigger] kernel.tasks@[q]
                == target[q] by {
                if q == INITPROC_PID {
                    assert(kernel.tasks@[q].children == init.children + after);
                } else if q == child {
                    assert(kernel.tasks@[q].parent == Some(INITPROC_PID));
                } else {
                    assert(kernel.tasks@[q] == marked.reparent(task, i as int)[q]);
                }
            }
            assert(kernel.tasks@ =~= target);
        }
        i += 1;
    }
    let inner = kernel.tasks.get_mut(task).inner_exclusive_access();
    inner.children.clear();
    inner.memory_set.recycle_data_pages();
    proof {
        assert(kids.subrange(0, n as int) =~= kids);
        let target = old(kernel)@.exit(exit_code).0.tasks;
        let handed = marked.reparent(task, n as int);
        assert(marked.tasks =~= old(kernel)@.tasks.insert(
            task,
            TaskView {
                task_status: TaskStatus::Zombie,
                exit_code,
                ..old(kernel)@.tasks[task]
            },
        ));
        assert(!kids.contains(task));
        assert(handed[task] == marked.tasks[task]);
        assert(kernel@.tasks == handed.insert(
            task,
            TaskView {
                children: Seq::empty(),
                memory_set: handed[task].memory_set.clear(),
                ..handed[task]
            },
        ));
        assert forall|q: usize| marked.live(q) implies #[trigger] kernel@.tasks[q]
            == target[q] by {
            if q != task {
                assert(kernel@.tasks[q] == handed[q]);
                assert(marked.tasks[q] == old(kernel)@.tasks[q]);
                assert(target[q] == old(kernel)@.reparent(task, n as int)[q]);
            }
        }
        assert(kernel@.tasks =~= target);
    }
    schedule(ContextSlot::Unused)
}

/// `processor` once its running task is taken off.
pub open spec fn idle_processor(processor: Processor) -> Processor {
    Processor { current: None, idle_task_cx: processor.idle_task_cx }
}

/// Creates the initial process from the program `elf` and puts it into the ready
/// queue. It is the first task of the kernel and gets the process identifier 0.
pub fn add_initproc(kernel: &mut Kernel, elf: ElfImage)
    requires
        old(kernel).wf(),
        old(kernel)@.pid_current == 0,
        elf.memory_set@.wf(),
    ensures
        final(kernel)@ == old(kernel)@.create(old(kernel)@.initproc(elf)),
        final(kernel)@.next_pid() == 1,
        final(kernel).wf(),
{
    proof {
        let k = kernel@;
        assert(k.pid_recycled.len() == 0 && k.pids_inv() && k.kernel_space.wf()) by {
            reveal(KernelView::inv);
            if k.pid_recycled.len() > 0 {
                assert(k.pid_recycled[0] < k.pid_current);
            }
        }
        lemma_layout();
        lemma_next_pid(k);
        lemma_stack_slot_free(k, INITPROC_PID);
        lemma_create_inv(k, k.initproc(elf));
    }
    let initproc = TaskControlBlock::new(
        elf,
        &mut kernel.pid_allocator,
        &mut kernel.kernel_space,
        kernel.trap_entry,
    );
    kernel.tasks.insert(initproc);
    add_task(&mut kernel.task_manager, INITPROC_PID);
}

} // verus!
