//! The system calls that act on processes.

use vstd::prelude::*;
use crate::config::{MAX_PID, MAX_SYSCALL_NUM, PAGE_SIZE, lemma_layout};
use crate::mm::{MemorySetView, lemma_remove_wf};
use crate::task::kernel::{
    INITPROC_PID,
    Kernel,
    KernelView,
    lemma_create_inv,
    lemma_next_pid,
    lemma_stack_slot_taken,
};
use crate::task::manager::add_task;
use crate::task::pid::{lemma_stack_area, spec_kernel_stack_position, stack_area, stack_owner};
use crate::task::processor::{
    current_task,
    get_run_time,
    get_syscall_times,
    lemma_with_task_inv,
    mmap,
    munmap,
    set_priority,
};
use crate::task::switch::Switch;
use crate::task::task::{ElfImage, TaskControlBlock, TaskStatus, TaskView};
use crate::task::{exit_current_and_run_next, lemma_children, suspend_current_and_run_next};
use crate::trap::{REG_A0, TrapContextView};

verus! {

/// A point in time: whole seconds and the microseconds beyond them.
#[derive(Clone, Copy, Debug, PartialEq, Eq, Structural)]
pub struct TimeVal {
    pub sec: usize,
    pub usec: usize,
}

/// What a task learns about itself.
pub struct TaskInfo {
    /// The task's status: running, since it asks.
    pub status: TaskStatus,
    /// How often the task made each system call.
    pub syscall_times: [u32; MAX_SYSCALL_NUM],
    /// Milliseconds since the task's start time.
    pub time: usize,
}

/// Whether a child with process identifier `child` is one that `waitpid` was
/// asked for with `target`: -1 asks for any child, every other number for the
/// child with that process identifier.
pub open spec fn child_matches(target: int, child: usize) -> bool {
    target == -1 || target == child as int
}

/// Index of the first of `children` that `target` asks for and that is a zombie,
/// or the length of `children` if there is none.
pub open spec fn first_zombie(children: Seq<usize>, tasks: Map<usize, TaskView>, target: int) -> int
    decreases children.len(),
{
    if children.len() == 0 {
        0
    } else if child_matches(target, children[0]) && tasks[children[0]].task_status
        == TaskStatus::Zombie {
        0
    } else {
        1 + first_zombie(children.drop_first(), tasks, target)
    }
}

/// `first_zombie` is the least index of a zombie that `target` asks for.
pub proof fn lemma_first_zombie(children: Seq<usize>, tasks: Map<usize, TaskView>, target: int)
    ensures
        0 <= first_zombie(children, tasks, target) <= children.len(),
        first_zombie(children, tasks, target) < children.len() ==> child_matches(
            target,
            children[first_zombie(children, tasks, target)],
        ) && tasks[children[first_zombie(children, tasks, target)]].task_status
            == TaskStatus::Zombie,
        forall|j: int|
            0 <= j < first_zombie(children, tasks, target) ==> !(child_matches(
                target,
                #[trigger] children[j],
            ) && tasks[children[j]].task_status == TaskStatus::Zombie),
    decreases children.len(),
{
    if children.len() > 0 && !(child_matches(target, children[0]) && tasks[children[0]].task_status
        == TaskStatus::Zombie) {
        let rest = children.drop_first();
        lemma_first_zombie(rest, tasks, target);
        assert forall|j: int| 0 <= j < first_zombie(children, tasks, target) implies !(
        child_matches(target, #[trigger] children[j]) && tasks[children[j]].task_status
            == TaskStatus::Zombie) by {
            if j > 0 {
                assert(children[j] == rest[j - 1]);
            }
        }
    }
}

/// Any index that meets the conditions of `lemma_first_zombie` is `first_zombie`.
pub proof fn lemma_first_zombie_unique(
    children: Seq<usize>,
    tasks: Map<usize, TaskView>,
    target: int,
    k: int,
)
    requires
        0 <= k <= children.len(),
        k < children.len() ==> child_matches(target, children[k]) && tasks[children[k]].task_status
            == TaskStatus::Zombie,
        forall|j: int|
            0 <= j < k ==> !(child_matches(target, #[trigger] children[j])
                && tasks[children[j]].task_status == TaskStatus::Zombie),
    ensures
        first_zombie(children, tasks, target) == k,
{
    lemma_first_zombie(children, tasks, target);
    let f = first_zombie(children, tasks, target);
    if f < k {
        assert(!(child_matches(target, children[f]) && tasks[children[f]].task_status
            == TaskStatus::Zombie));
    }
    if k < f {
        assert(!(child_matches(target, children[k]) && tasks[children[k]].task_status
            == TaskStatus::Zombie));
    }
}

impl KernelView {
    /// The child that the running task gets by `fork`, where the memory
    /// subsystem knows the copy of the address space as `token` and holds the
    /// copy of the trap frame in page `trap_cx_ppn`: a copy of the running task
    /// whose trap frame hands back 0 and points to the child's own kernel stack.
    pub open spec fn forked(self, token: usize, trap_cx_ppn: usize) -> TaskView {
        let parent = self.tasks[self.current->0];
        let pid = self.next_pid();
        TaskView::created(
            pid,
            Some(parent.pid),
            MemorySetView { token, areas: parent.memory_set.areas },
            trap_cx_ppn,
            TrapContextView {
                x: parent.trap_cx.x.update(REG_A0 as int, 0),
                kernel_sp: spec_kernel_stack_position(pid as int).1 as usize,
                ..parent.trap_cx
            },
            parent.base_size,
            self.trap_entry.trap_return,
        )
    }

    /// The state after the running task forked, and what the task is told: the
    /// process identifier of the child.
    pub open spec fn fork(self, token: usize, trap_cx_ppn: usize) -> (KernelView, int) {
        (self.create(self.forked(token, trap_cx_ppn)), self.next_pid() as int)
    }

    /// The child that the running task gets by `spawn` with the program `elf`.
    pub open spec fn spawned(self, elf: ElfImage) -> TaskView {
        let parent = self.tasks[self.current->0];
        let pid = self.next_pid();
        TaskView::created(
            pid,
            Some(parent.pid),
            elf.memory_set@,
            elf.trap_cx_ppn,
            TaskView::initial_trap_cx(pid, elf, self.kernel_space.token, self.trap_entry),
            parent.base_size,
            self.trap_entry.trap_return,
        )
    }

    /// The state after the running task asked to spawn the program `elf`, and
    /// what the task is told: the process identifier of the child, or -1, with
    /// nothing changed, if there is no such program.
    pub open spec fn spawn(self, elf: Option<ElfImage>) -> (KernelView, int) {
        match elf {
            Some(elf) => (self.create(self.spawned(elf)), self.next_pid() as int),
            None => (self, -1),
        }
    }

    /// The state after the running task asked to run the program `elf` in its
    /// place, and what the task is told: 0, or -1, with nothing changed, if there
    /// is no such program.
    pub open spec fn exec(self, elf: Option<ElfImage>) -> (KernelView, int) {
        match elf {
            Some(elf) => {
                let pid = self.current->0;
                (
                    self.with_task(
                        pid,
                        TaskView {
                            memory_set: elf.memory_set@,
                            trap_cx_ppn: elf.trap_cx_ppn,
                            trap_cx: TaskView::initial_trap_cx(
                                pid,
                                elf,
                                self.kernel_space.token,
                                self.trap_entry,
                            ),
                            ..self.tasks[pid]
                        },
                    ),
                    0,
                )
            },
            None => (self, -1),
        }
    }

    /// The state after the child at position `idx` among the children of the
    /// running task was reaped: the child has no control block any more, the
    /// running task does not list it, its process identifier is handed back, and
    /// its kernel stack is unmapped.
    pub open spec fn reap(self, idx: int) -> KernelView {
        let pid = self.current->0;
        let child = self.tasks[pid].children[idx];
        KernelView {
            tasks: self.tasks.insert(
                pid,
                TaskView { children: self.tasks[pid].children.remove(idx), ..self.tasks[pid] },
            ).remove(child),
            pid_recycled: self.pid_recycled.push(child),
            kernel_space: self.kernel_space.remove_start(stack_area(child as int).start_vpn as int),
            ..self
        }
    }

    /// The state after the running task waited for the children that `target`
    /// asks for, what the task is told, and the exit code that is stored for it:
    /// -1 if it has no such child; -2 if it has, but none of them is a zombie; else
    /// the first of them that is a zombie is reaped, and the task is told its
    /// process identifier and gets its exit code.
    pub open spec fn waitpid(self, target: int) -> (KernelView, int, Option<i32>) {
        let kids = self.tasks[self.current->0].children;
        let idx = first_zombie(kids, self.tasks, target);
        if !(exists|i: int| 0 <= i < kids.len() && child_matches(target, #[trigger] kids[i])) {
            (self, -1, None)
        } else if idx >= kids.len() {
            (self, -2, None)
        } else {
            (self.reap(idx), kids[idx] as int, Some(self.tasks[kids[idx]].exit_code))
        }
    }
}

/// The seconds and microseconds of the timer reading `now_us`.
pub open spec fn spec_time_val(now_us: usize) -> TimeVal {
    TimeVal { sec: now_us / 1_000_000, usec: now_us % 1_000_000 }
}

/// The child of `fork` can be created, in every state in which a task can.
pub proof fn lemma_fork_creatable(k: KernelView, token: usize, trap_cx_ppn: usize)
    requires
        k.inv(),
        k.current is Some,
        k.can_create(),
    ensures
        k.creatable(k.forked(token, trap_cx_ppn)),
        k.fork(token, trap_cx_ppn).0.inv(),
{
    Kernel::lemma_current(k);
    assert(k.pids_inv()) by {
        reveal(KernelView::inv);
    }
    lemma_next_pid(k);
    let child = k.forked(token, trap_cx_ppn);
    assert(child.memory_set.wf()) by {
        let parent = k.tasks[k.current->0].memory_set;
        assert(parent.wf());
        assert(child.memory_set.areas == parent.areas);
    }
    lemma_create_inv(k, child);
}

/// The child of `spawn` can be created, in every state in which a task can.
pub proof fn lemma_spawn_creatable(k: KernelView, elf: ElfImage)
    requires
        k.inv(),
        k.current is Some,
        k.can_create(),
        elf.memory_set@.wf(),
    ensures
        k.creatable(k.spawned(elf)),
        k.spawn(Some(elf)).0.inv(),
{
    Kernel::lemma_current(k);
    assert(k.pids_inv()) by {
        reveal(KernelView::inv);
    }
    lemma_next_pid(k);
    lemma_create_inv(k, k.spawned(elf));
}

/// `exec` keeps the invariant.
pub proof fn lemma_exec_inv(k: KernelView, elf: Option<ElfImage>)
    requires
        k.inv(),
        k.current is Some,
        elf matches Some(e) ==> e.memory_set@.wf(),
    ensures
        k.exec(elf).0.inv(),
{
    Kernel::lemma_current(k);
    if elf is Some {
        lemma_with_task_inv(k, k.current->0, k.exec(elf).0.tasks[k.current->0]);
    }
}

#[verifier::rlimit(30)]
proof fn lemma_reap_pids(k: KernelView, idx: int)
    requires
        k.inv(),
        k.current is Some,
        0 <= idx < k.tasks[k.current->0].children.len(),
        k.tasks[k.tasks[k.current->0].children[idx]].task_status == TaskStatus::Zombie,
    ensures
        k.reap(idx).pids_inv(),
        k.reap(idx).stacks_inv(),
{
    reveal(KernelView::inv);
    let k2 = k.reap(idx);
    let pid = k.current->0;
    let c = k.tasks[pid].children[idx];
    Kernel::lemma_current(k);
    lemma_children(k, pid);
    assert(k.live(c));
    assert(k.pid_live(c));
    let n = k.pid_recycled.len() as int;
    assert forall|q: usize| #[trigger] k2.live(q) <==> k2.pid_live(q) by {
        assert(k.live(q) <==> k.pid_live(q));
        assert(k2.live(q) <==> (k.live(q) && q != c));
        if k.pid_recycled.contains(q) {
            let i = choose|i: int| 0 <= i < n && k.pid_recycled[i] == q;
            assert(k2.pid_recycled[i] == q);
        }
        if q == c {
            assert(k2.pid_recycled[n] == c);
        }
    }
    assert forall|q: usize| #[trigger] k2.live(q) implies k2.tasks[q].pid == q
        && k2.tasks[q].stack_pid == q by {
        assert(k.live(q));
    }
    assert(k2.pid_recycled.no_duplicates()) by {
        assert forall|i: int, j: int| 0 <= i < n + 1 && 0 <= j < n + 1 && i != j implies
            k2.pid_recycled[i] != k2.pid_recycled[j] by {
            if i < n && j == n {
                assert(k.pid_recycled.contains(k.pid_recycled[i]));
            }
            if j < n && i == n {
                assert(k.pid_recycled.contains(k.pid_recycled[j]));
            }
        }
    }
    let slot = lemma_stack_slot_taken(k, c);
    lemma_stack_area(c as int);
    lemma_remove_wf(k.kernel_space, slot);
    let areas = k.kernel_space.areas;
    assert(k2.kernel_space.areas == areas.remove(slot));
    assert(k2.kernel_space == (MemorySetView { areas: areas.remove(slot), ..k.kernel_space }));
    assert forall|q: usize| #[trigger] k2.live(q) implies k2.stack_mapped(q) by {
        assert(k.live(q));
        assert(k.stack_mapped(q));
        let i = choose|i: int| 0 <= i < areas.len() && areas[i] == stack_area(q as int);
        assert(k.pid_live(q));
        lemma_stack_area(q as int);
        assert(i != slot);
        let i2 = if i < slot { i } else { i - 1 };
        assert(areas.remove(slot)[i2] == stack_area(q as int));
    }
    assert forall|i: int| 0 <= i < k2.kernel_space.areas.len() implies k2.live(
        stack_owner(#[trigger] k2.kernel_space.areas[i]),
    ) && k2.kernel_space.areas[i] == stack_area(stack_owner(k2.kernel_space.areas[i]) as int) by {
        let i0 = if i < slot { i } else { i + 1 };
        assert(k2.kernel_space.areas[i] == areas[i0]);
        assert(k.live(stack_owner(areas[i0])));
        assert(areas[i0] != stack_area(c as int));
    }
}

proof fn lemma_reap_sched(k: KernelView, idx: int)
    requires
        k.inv(),
        k.current is Some,
        0 <= idx < k.tasks[k.current->0].children.len(),
        k.tasks[k.tasks[k.current->0].children[idx]].task_status == TaskStatus::Zombie,
    ensures
        k.reap(idx).processor_inv(),
        k.reap(idx).queue_inv(),
        k.reap(idx).task_inv(),
{
    reveal(KernelView::inv);
    let k2 = k.reap(idx);
    let pid = k.current->0;
    let c = k.tasks[pid].children[idx];
    Kernel::lemma_current(k);
    lemma_children(k, pid);
    assert(k.live(c));
    assert forall|q: usize| #[trigger] k2.live(q) implies k.live(q) && q != c
        && k2.tasks[q].task_status == k.tasks[q].task_status by {}
    assert forall|q: usize| #[trigger]
        k2.live(q) && k2.tasks[q].task_status == TaskStatus::Running implies k2.current == Some(
        q,
    ) by {
        assert(k.live(q));
    }
    assert forall|i: int| 0 <= i < k2.ready_queue.len() implies k2.live(
        #[trigger] k2.ready_queue[i],
    ) && k2.tasks[k2.ready_queue[i]].task_status == TaskStatus::Ready by {
        assert(k.live(k.ready_queue[i]));
    }
    assert forall|q: usize| #[trigger]
        k2.live(q) && k2.tasks[q].task_status == TaskStatus::Ready implies k2.ready_queue.contains(
        q,
    ) by {
        assert(k.live(q));
    }
    assert forall|q: usize| #[trigger] k2.live(q) implies k2.tasks[q].inv() by {
        assert(k.live(q));
        assert(k.tasks[q].inv());
    }
}

#[verifier::rlimit(30)]
proof fn lemma_reap_tree(k: KernelView, idx: int)
    requires
        k.inv(),
        k.current is Some,
        0 <= idx < k.tasks[k.current->0].children.len(),
        k.tasks[k.tasks[k.current->0].children[idx]].task_status == TaskStatus::Zombie,
    ensures
        k.reap(idx).tree_inv(),
{
    reveal(KernelView::inv);
    let k2 = k.reap(idx);
    let pid = k.current->0;
    let kids = k.tasks[pid].children;
    let c = kids[idx];
    Kernel::lemma_current(k);
    lemma_children(k, pid);
    assert(k.live(c));
    assert(k.tasks[c].inv());
    assert(k.tasks[c].children.len() == 0);
    assert forall|q: usize| #[trigger] k2.live(q) implies k.live(q) && q != c && k2.tasks[q].parent
        == k.tasks[q].parent by {}
    assert forall|q: usize| #[trigger] k2.live(q) implies (k2.tasks[q].parent is None <==> q
        == INITPROC_PID) by {
        assert(k.live(q));
    }
    assert forall|q: usize| #[trigger] k2.live(q) && k2.tasks[q].parent is Some implies k2.live(
        k2.tasks[q].parent->0,
    ) && k2.tasks[k2.tasks[q].parent->0].children.contains(q) by {
        assert(k.live(q));
        let p = k.tasks[q].parent->0;
        assert(k.live(p));
        assert(p != c);
        let i = choose|i: int| 0 <= i < k.tasks[p].children.len() && k.tasks[p].children[i] == q;
        if p == pid {
            let i2 = if i < idx { i } else { i - 1 };
            assert(kids.remove(idx)[i2] == q);
        }
    }
    assert forall|q: usize, i: int|
        k2.live(q) && 0 <= i < k2.tasks[q].children.len() implies k2.live(
        #[trigger] k2.tasks[q].children[i],
    ) && k2.tasks[k2.tasks[q].children[i]].parent == Some(q) by {
        assert(k.live(q));
        if q == pid {
            let i0 = if i < idx { i } else { i + 1 };
            assert(k2.tasks[q].children[i] == kids[i0]);
            assert(k.live(kids[i0]));
        } else {
            let g = k.tasks[q].children[i];
            assert(k.live(g));
            assert(k.tasks[g].parent == Some(q));
        }
    }
    assert forall|q: usize| #[trigger] k2.live(q) implies k2.tasks[q].children.no_duplicates() by {
        assert(k.live(q));
        if q == pid {
            let left = kids.remove(idx);
            assert forall|i: int, j: int|
                0 <= i < left.len() && 0 <= j < left.len() && i != j implies left[i]
                != left[j] by {
                let i0 = if i < idx { i } else { i + 1 };
                let j0 = if j < idx { j } else { j + 1 };
                assert(left[i] == kids[i0] && left[j] == kids[j0]);
            }
        }
    }
}

/// Reaping a zombie child of the running task keeps the invariant.
pub proof fn lemma_reap_inv(k: KernelView, idx: int)
    requires
        k.inv(),
        k.current is Some,
        0 <= idx < k.tasks[k.current->0].children.len(),
        k.tasks[k.tasks[k.current->0].children[idx]].task_status == TaskStatus::Zombie,
    ensures
        k.reap(idx).inv(),
{
    lemma_reap_pids(k, idx);
    lemma_reap_sched(k, idx);
    lemma_reap_tree(k, idx);
    reveal(KernelView::inv);
}

/// `waitpid` keeps the invariant.
pub proof fn lemma_waitpid_inv(k: KernelView, target: int)
    requires
        k.inv(),
        k.current is Some,
    ensures
        k.waitpid(target).0.inv(),
{
    let kids = k.tasks[k.current->0].children;
    lemma_first_zombie(kids, k.tasks, target);
    if first_zombie(kids, k.tasks, target) < kids.len() {
        lemma_reap_inv(k, first_zombie(kids, k.tasks, target));
    }
}

/// The running task exits with `exit_code`; see [`exit_current_and_run_next`].
pub fn sys_exit(kernel: &mut Kernel, exit_code: i32) -> (switch: Switch)
    requires
        old(kernel).wf(),
        old(kernel)@.current is Some,
        old(kernel)@.current != Some(INITPROC_PID),
    ensures
        final(kernel)@ == old(kernel)@.exit(exit_code).0,
        switch == old(kernel)@.exit(exit_code).1,
        final(kernel).wf(),
{
    exit_current_and_run_next(kernel, exit_code)
}

/// The running task gives up the processor; see
/// [`suspend_current_and_run_next`].
pub fn sys_yield(kernel: &mut Kernel) -> (switch: Switch)
    requires
        old(kernel).wf(),
        old(kernel)@.current is Some,
    ensures
        final(kernel)@ == old(kernel)@.suspend().0,
        switch == old(kernel)@.suspend().1,
        final(kernel).wf(),
{
    suspend_current_and_run_next(kernel)
}

/// The process identifier of the running task.
pub fn sys_getpid(kernel: &Kernel) -> (r: isize)
    requires
        kernel.wf(),
        kernel@.current is Some,
    ensures
        r == kernel@.current->0,
{
    proof {
        Kernel::lemma_current(kernel@);
        lemma_layout();
    }
    let pid: usize = current_task(&kernel.processor).unwrap();
    kernel.tasks.get(pid).getpid() as isize
}

/// The running task forks: a copy of it becomes its youngest child and the last
/// task in the ready queue. `token` and `trap_cx_ppn` name the copy that the
/// memory subsystem made of the task's address space. Hands back the process
/// identifier of the child; the child itself will find 0 in its place.
pub fn sys_fork(kernel: &mut Kernel, token: usize, trap_cx_ppn: usize) -> (r: isize)
    requires
        old(kernel).wf(),
        old(kernel)@.current is Some,
        old(kernel)@.can_create(),
    ensures
        final(kernel)@ == old(kernel)@.fork(token, trap_cx_ppn).0,
        r == old(kernel)@.fork(token, trap_cx_ppn).1,
        final(kernel).wf(),
{
    proof {
        let k = kernel@;
        Kernel::lemma_current(k);
        lemma_fork_creatable(k, token, trap_cx_ppn);
        Kernel::lemma_can_create(*kernel);
        lemma_layout();
    }
    let current: usize = current_task(&kernel.processor).unwrap();
    let mut new_task = kernel.tasks.get_mut(current).fork(
        token,
        trap_cx_ppn,
        &mut kernel.pid_allocator,
        &mut kernel.kernel_space,
        kernel.trap_entry,
    );
    let new_pid: usize = new_task.pid.0;
    new_task.inner.trap_cx.x[REG_A0] = 0;
    kernel.tasks.insert(new_task);
    add_task(&mut kernel.task_manager, new_pid);
    proof {
        assert(kernel@.tasks =~= old(kernel)@.fork(token, trap_cx_ppn).0.tasks);
    }
    new_pid as isize
}

/// The running task replaces its program by `elf`, the program that it named,
/// and is handed back 0; or is refused with -1 if there is no such program.
pub fn sys_exec(kernel: &mut Kernel, elf: Option<ElfImage>) -> (r: isize)
    requires
        old(kernel).wf(),
        old(kernel)@.current is Some,
        elf matches Some(e) ==> e.memory_set@.wf(),
    ensures
        final(kernel)@ == old(kernel)@.exec(elf).0,
        r == old(kernel)@.exec(elf).1,
        final(kernel).wf(),
{
    proof {
        Kernel::lemma_current(kernel@);
        lemma_exec_inv(kernel@, elf);
    }
    if let Some(data) = elf {
        let current: usize = current_task(&kernel.processor).unwrap();
        kernel.tasks.get_mut(current).exec(data, &kernel.kernel_space, kernel.trap_entry);
        0
    } else {
        -1
    }
}

/// The running task waits for a child: for any if `pid` is -1, else for the one
/// with process identifier `pid`. Hands back -1 if it has no such child, and -2
/// if it has, but none of them is a zombie. Else the first such zombie among its
/// children is reaped: its control block, its process identifier and its kernel
/// stack are released, in this order. Then hands back the process identifier
/// of the zombie, and its exit code, to be stored where the task asked for it.
pub fn sys_waitpid(kernel: &mut Kernel, pid: isize) -> (r: (isize, Option<i32>))
    requires
        old(kernel).wf(),
        old(kernel)@.current is Some,
    ensures
        final(kernel)@ == old(kernel)@.waitpid(pid as int).0,
        r.0 == old(kernel)@.waitpid(pid as int).1,
        r.1 == old(kernel)@.waitpid(pid as int).2,
        final(kernel).wf(),
{
    proof {
        let k = kernel@;
        Kernel::lemma_current(k);
        lemma_children(k, k.current->0);
        lemma_waitpid_inv(k, pid as int);
        lemma_layout();
    }
    let current: usize = current_task(&kernel.processor).unwrap();
    let ghost kids = kernel@.tasks[current].children;
    let n: usize = kernel.tasks.get(current).inner.children.len();
    let mut found: bool = false;
    let mut i: usize = 0;
    while i < n
        invariant
            i <= n,
            n == kids.len(),
            *kernel == *old(kernel),
            kernel@.live(current),
            kids == kernel@.tasks[current].children,
            found <==> exists|j: int| 0 <= j < i && child_matches(pid as int, #[trigger] kids[j]),
        decreases n - i,
    {
        let child: usize = kernel.tasks.get(current).inner.children[i];
        if pid == -1 || (pid >= 0 && pid as usize == child) {
            found = true;
        }
        assert(child_matches(pid as int, kids[i as int]) <==> (pid == -1 || (pid >= 0
            && pid as usize == child)));
        i += 1;
    }
    if !found {
        return (-1, None);
    }
    let mut idx: usize = 0;
    let mut hit: bool = false;
    while idx < n && !hit
        invariant
            idx <= n,
            n == kids.len(),
            *kernel == *old(kernel),
            kernel@.live(current),
            kids == kernel@.tasks[current].children,
            forall|j: int| 0 <= j < kids.len() ==> kernel@.live(#[trigger] kids[j]),
            forall|j: int|
                0 <= j < idx ==> !(child_matches(pid as int, #[trigger] kids[j])
                    && kernel@.tasks[kids[j]].task_status == TaskStatus::Zombie),
            hit ==> idx < n && child_matches(pid as int, kids[idx as int])
                && kernel@.tasks[kids[idx as int]].task_status == TaskStatus::Zombie,
        decreases 2 * (n - idx) + (if hit { 0int } else { 1int }),
    {
        let child: usize = kernel.tasks.get(current).inner.children[idx];
        assert(child_matches(pid as int, kids[idx as int]) <==> (pid == -1 || (pid >= 0
            && pid as usize == child)));
        if kernel.tasks.get(child).inner.is_zombie() && (pid == -1 || (pid >= 0 && pid as usize
            == child)) {
            hit = true;
        } else {
            idx += 1;
        }
    }
    proof {
        lemma_first_zombie_unique(kids, kernel@.tasks, pid as int, idx as int);
    }
    if idx == n {
        return (-2, None);
    }
    let ghost slot = lemma_stack_slot_taken(kernel@, kids[idx as int]);
    proof {
        assert(kernel.pid_allocator.live(kids[idx as int])) by {
            reveal(KernelView::inv);
            assert(kernel@.live(kids[idx as int]));
            assert(kernel@.pid_live(kids[idx as int]));
        }
        assert(kernel.pid_allocator.wf() && kernel.kernel_space@.wf() && kids[idx as int]
            <= MAX_PID && kernel@.tasks[kids[idx as int]].stack_pid == kids[idx as int]
            && kernel@.tasks[kids[idx as int]].pid == kids[idx as int]) by {
            reveal(KernelView::inv);
            assert(kernel@.live(kids[idx as int]));
            assert(kernel@.pid_live(kids[idx as int]));
        }
    }
    let child_pid: usize = kernel.tasks.get_mut(current).inner.children.remove(idx);
    let child: TaskControlBlock = kernel.tasks.remove(child_pid);
    let found_pid: usize = child.getpid();
    let exit_code: i32 = child.inner.exit_code;
    let TaskControlBlock { pid: pid_handle, kernel_stack, inner: _ } = child;
    pid_handle.drop(&mut kernel.pid_allocator);
    kernel_stack.drop(&mut kernel.kernel_space);
    proof {
        assert(kernel@.tasks =~= old(kernel)@.reap(idx as int).tasks);
    }
    (found_pid as isize, Some(exit_code))
}

/// The seconds and microseconds of the timer reading `now_us`, to be stored
/// where the task asked for them.
pub fn sys_get_time(now_us: usize) -> (time: TimeVal)
    ensures
        time == spec_time_val(now_us),
{
    TimeVal { sec: now_us / 1_000_000, usec: now_us % 1_000_000 }
}

/// Sets the priority of the running task; see [`set_priority`].
pub fn sys_set_priority(kernel: &mut Kernel, prio: isize) -> (r: isize)
    requires
        old(kernel).wf(),
        old(kernel)@.current is Some,
    ensures
        final(kernel)@ == old(kernel)@.set_priority(prio as int).0,
        r == old(kernel)@.set_priority(prio as int).1,
        final(kernel).wf(),
{
    set_priority(kernel, prio)
}

/// Maps pages into the address space of the running task; see [`mmap`].
pub fn sys_mmap(kernel: &mut Kernel, start: usize, len: usize, port: usize) -> (r: isize)
    requires
        old(kernel).wf(),
        old(kernel)@.current is Some,
        start as int % PAGE_SIZE as int == 0 && 1 <= port <= 7 ==> start + len <= usize::MAX,
    ensures
        final(kernel)@ == old(kernel)@.mmap(start, len, port).0,
        r == old(kernel)@.mmap(start, len, port).1,
        final(kernel).wf(),
{
    mmap(kernel, start, len, port)
}

/// Unmaps pages from the address space of the running task; see [`munmap`].
pub fn sys_munmap(kernel: &mut Kernel, start: usize, len: usize) -> (r: isize)
    requires
        old(kernel).wf(),
        old(kernel)@.current is Some,
        start as int % PAGE_SIZE as int == 0 ==> start + len <= usize::MAX,
    ensures
        final(kernel)@ == old(kernel)@.munmap(start, len).0,
        r == old(kernel)@.munmap(start, len).1,
        final(kernel).wf(),
{
    munmap(kernel, start, len)
}

/// What the running task learns about itself at the timer reading `now_us`, to
/// be stored where the task asked for it: that it runs, how often it made each
/// system call, and how many milliseconds have passed since its start time.
pub fn sys_task_info(kernel: &Kernel, now_us: usize) -> (info: TaskInfo)
    requires
        kernel.wf(),
        kernel@.current is Some,
        now_us >= kernel@.tasks[kernel@.current->0].start_time,
    ensures
        info.status == TaskStatus::Running,
        info.syscall_times@ == kernel@.tasks[kernel@.current->0].syscall_times,
        info.time == (now_us - kernel@.tasks[kernel@.current->0].start_time) / 1000,
{
    TaskInfo {
        status: TaskStatus::Running,
        syscall_times: get_syscall_times(kernel),
        time: get_run_time(kernel, now_us) / 1000,
    }
}

/// The running task spawns a child that runs `elf`, the program that it named,
/// and is handed back the process identifier of the child; or is refused with -1
/// if there is no such program.
pub fn sys_spawn(kernel: &mut Kernel, elf: Option<ElfImage>) -> (r: isize)
    requires
        old(kernel).wf(),
        old(kernel)@.current is Some,
        elf matches Some(e) ==> e.memory_set@.wf() && old(kernel)@.can_create(),
    ensures
        final(kernel)@ == old(kernel)@.spawn(elf).0,
        r == old(kernel)@.spawn(elf).1,
        final(kernel).wf(),
{
    if let Some(data) = elf {
        proof {
            let k = kernel@;
            Kernel::lemma_current(k);
            lemma_spawn_creatable(k, data);
            Kernel::lemma_can_create(*kernel);
            lemma_layout();
        }
        let current: usize = current_task(&kernel.processor).unwrap();
        let new_task = kernel.tasks.get_mut(current).spawn(
            data,
            &mut kernel.pid_allocator,
            &mut kernel.kernel_space,
            kernel.trap_entry,
        );
        let new_pid: usize = new_task.pid.0;
        kernel.tasks.insert(new_task);
        add_task(&mut kernel.task_manager, new_pid);
        proof {
            assert(kernel@.tasks =~= old(kernel)@.spawn(elf).0.tasks);
        }
        new_pid as isize
    } else {
        -1
    }
}

} // verus!
