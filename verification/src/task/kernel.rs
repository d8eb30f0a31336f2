//! The state of the process subsystem as one value, and the invariant that every
//! operation on it keeps.

use vstd::prelude::*;
use crate::config::{MAX_PID, MAX_SYSCALL_NUM};
use crate::mm::{MemorySet, MemorySetView, lemma_insert_wf, lemma_without_starts_one, starts_in};
use crate::trap::TrapEntry;
use super::context::TaskContextView;
use super::manager::TaskManager;
use super::pid::{
    PidAllocator,
    lemma_stack_area,
    lemma_stack_areas_apart,
    stack_area,
    stack_owner,
};
use super::processor::Processor;
use super::table::TaskTable;
use super::task::{TaskStatus, TaskView};

verus! {

/// Process identifier of the initial process: the first that is handed out.
pub const INITPROC_PID: usize = 0;

/// Name of the application that the initial process runs.
pub const INITPROC_NAME: &'static str = "ch5b_initproc";

/// The state of the process subsystem.
pub struct Kernel {
    /// Hands out the process identifiers.
    pub pid_allocator: PidAllocator,
    /// The part of the kernel address space that holds the kernel stacks.
    pub kernel_space: MemorySet,
    /// The ready queue.
    pub task_manager: TaskManager,
    /// The running task, if any.
    pub processor: Processor,
    /// The control blocks of the live tasks.
    pub tasks: TaskTable,
    /// The platform's trap routines.
    pub trap_entry: TrapEntry,
}

/// The mathematical content of a [`Kernel`].
pub struct KernelView {
    /// The live tasks by process identifier.
    pub tasks: Map<usize, TaskView>,
    /// The ready tasks, in the order in which they became ready.
    pub ready_queue: Seq<usize>,
    /// The running task; none while the idle control flow runs.
    pub current: Option<usize>,
    /// The register snapshot of the idle control flow.
    pub idle_task_cx: TaskContextView,
    /// The next process identifier that was never handed out.
    pub pid_current: usize,
    /// The process identifiers that were handed back, oldest first.
    pub pid_recycled: Seq<usize>,
    /// The kernel stacks in the kernel address space.
    pub kernel_space: MemorySetView,
    /// The platform's trap routines.
    pub trap_entry: TrapEntry,
}

impl View for Kernel {
    type V = KernelView;

    open spec fn view(&self) -> KernelView {
        KernelView {
            tasks: self.tasks@,
            ready_queue: self.task_manager.ready_queue@,
            current: self.processor.current,
            idle_task_cx: self.processor.idle_task_cx@,
            pid_current: self.pid_allocator.current,
            pid_recycled: self.pid_allocator.recycled@,
            kernel_space: self.kernel_space@,
            trap_entry: self.trap_entry,
        }
    }
}

impl KernelView {
    /// Whether the task `pid` has a control block.
    pub open spec fn live(self, pid: usize) -> bool {
        self.tasks.dom().contains(pid)
    }

    /// Whether the process identifier `pid` is handed out and not handed back.
    pub open spec fn pid_live(self, pid: usize) -> bool {
        pid < self.pid_current && !self.pid_recycled.contains(pid)
    }

    /// Whether the kernel stack of `pid` is mapped.
    pub open spec fn stack_mapped(self, pid: usize) -> bool {
        self.kernel_space.areas.contains(stack_area(pid as int))
    }

    /// The process identifier that the next new task gets.
    pub open spec fn next_pid(self) -> usize {
        if self.pid_recycled.len() > 0 {
            self.pid_recycled.last()
        } else {
            self.pid_current
        }
    }

    /// Whether a new task can be created: whether a process identifier is left
    /// whose kernel stack fits below the trampoline.
    pub open spec fn can_create(self) -> bool {
        self.pid_recycled.len() > 0 || self.pid_current <= MAX_PID
    }

    /// The tasks with a control block are those whose process identifier is in
    /// use, each under its own identifier, and no identifier is beyond the last
    /// kernel stack slot.
    pub open spec fn pids_inv(self) -> bool {
        &&& forall|i: int|
            0 <= i < self.pid_recycled.len() ==> #[trigger] self.pid_recycled[i] < self.pid_current
        &&& self.pid_recycled.no_duplicates()
        &&& self.pid_current <= MAX_PID + 1
        &&& forall|pid: usize| #[trigger] self.live(pid) <==> self.pid_live(pid)
        &&& forall|pid: usize| #[trigger]
            self.live(pid) ==> self.tasks[pid].pid == pid && self.tasks[pid].stack_pid == pid
    }

    /// The regions of the kernel stack space are the kernel stacks of the live
    /// tasks, one each.
    pub open spec fn stacks_inv(self) -> bool {
        &&& self.kernel_space.wf()
        &&& forall|pid: usize| #[trigger] self.live(pid) ==> self.stack_mapped(pid)
        &&& forall|i: int|
            0 <= i < self.kernel_space.areas.len() ==> self.live(
                stack_owner(#[trigger] self.kernel_space.areas[i]),
            ) && self.kernel_space.areas[i] == stack_area(
                stack_owner(self.kernel_space.areas[i]) as int,
            )
    }

    /// A task is running if and only if it is the processor's current task.
    pub open spec fn processor_inv(self) -> bool {
        &&& self.current matches Some(pid) ==> self.live(pid) && self.tasks[pid].task_status
            == TaskStatus::Running
        &&& forall|pid: usize| #[trigger]
            self.live(pid) && self.tasks[pid].task_status == TaskStatus::Running ==> self.current
                == Some(pid)
    }

    /// The ready queue holds the ready tasks, each once.
    pub open spec fn queue_inv(self) -> bool {
        &&& self.ready_queue.no_duplicates()
        &&& forall|i: int|
            0 <= i < self.ready_queue.len() ==> self.live(#[trigger] self.ready_queue[i])
                && self.tasks[self.ready_queue[i]].task_status == TaskStatus::Ready
        &&& forall|pid: usize| #[trigger]
            self.live(pid) && self.tasks[pid].task_status == TaskStatus::Ready
                ==> self.ready_queue.contains(pid)
    }

    /// The initial process lives as long as any task, and it alone has no
    /// parent. Every other task has a live parent that lists it among its
    /// children, once; and whoever is listed as a child of a task has that task
    /// as its parent.
    pub open spec fn tree_inv(self) -> bool {
        &&& self.pid_current > 0 ==> self.live(INITPROC_PID)
        &&& forall|pid: usize| #[trigger]
            self.live(pid) ==> (self.tasks[pid].parent is None <==> pid == INITPROC_PID)
        &&& forall|pid: usize| #[trigger]
            self.live(pid) && self.tasks[pid].parent is Some ==> self.live(
                self.tasks[pid].parent->0,
            ) && self.tasks[self.tasks[pid].parent->0].children.contains(pid)
        &&& forall|pid: usize, i: int|
            self.live(pid) && 0 <= i < self.tasks[pid].children.len() ==> self.live(
                #[trigger] self.tasks[pid].children[i],
            ) && self.tasks[self.tasks[pid].children[i]].parent == Some(pid)
        &&& forall|pid: usize| #[trigger]
            self.live(pid) ==> self.tasks[pid].children.no_duplicates()
    }

    /// What holds of each task by itself.
    pub open spec fn task_inv(self) -> bool {
        forall|pid: usize| #[trigger] self.live(pid) ==> self.tasks[pid].inv()
    }

    /// The invariant of the process subsystem.
    #[verifier::opaque]
    pub open spec fn inv(self) -> bool {
        &&& self.pids_inv()
        &&& self.stacks_inv()
        &&& self.processor_inv()
        &&& self.queue_inv()
        &&& self.tree_inv()
        &&& self.task_inv()
    }

    /// This state with the control block of `pid` replaced by `task`.
    pub open spec fn with_task(self, pid: usize, task: TaskView) -> KernelView {
        KernelView { tasks: self.tasks.insert(pid, task), ..self }
    }

    /// The state after the new task `task` was created: it has the next process
    /// identifier and a kernel stack, its parent, if it has one, lists it as its
    /// youngest child, and it is the last in the ready queue.
    pub open spec fn create(self, task: TaskView) -> KernelView {
        let pid = self.next_pid();
        let tasks = match task.parent {
            Some(parent) => self.tasks.insert(
                parent,
                TaskView {
                    children: self.tasks[parent].children.push(pid),
                    ..self.tasks[parent]
                },
            ),
            None => self.tasks,
        };
        KernelView {
            tasks: tasks.insert(pid, task),
            ready_queue: self.ready_queue.push(pid),
            pid_current: if self.pid_recycled.len() > 0 {
                self.pid_current
            } else {
                (self.pid_current + 1) as usize
            },
            pid_recycled: if self.pid_recycled.len() > 0 {
                self.pid_recycled.drop_last()
            } else {
                self.pid_recycled
            },
            kernel_space: self.kernel_space.insert(stack_area(pid as int)),
            ..self
        }
    }
}

impl TaskView {
    /// What holds of a task by itself: its priority is at least 2, the regions of
    /// its address space are disjoint, it has a status, a count for each system
    /// call number, and, once it is a zombie, neither children nor mapped pages.
    /// It is not its own parent, and the initial process is no zombie.
    pub open spec fn inv(self) -> bool {
        &&& self.priority >= 2
        &&& self.parent != Some(self.pid)
        &&& self.pid == INITPROC_PID ==> self.task_status != TaskStatus::Zombie
        &&& self.memory_set.wf()
        &&& self.task_status != TaskStatus::UnInit
        &&& self.task_status == TaskStatus::Zombie ==> self.children.len() == 0
            && self.memory_set.areas.len() == 0
        &&& self.syscall_times.len() == MAX_SYSCALL_NUM
    }
}

impl Kernel {
    /// The invariant of the process subsystem holds, and the task table has one
    /// slot for each process identifier that was ever handed out.
    pub open spec fn wf(&self) -> bool {
        &&& self.tasks.slots@.len() == self.pid_allocator.current
        &&& self@.inv()
    }

    /// The running task of a state that meets the invariant is live and running,
    /// sits under its own identifier, and meets the task invariant.
    pub proof fn lemma_current(k: KernelView)
        requires
            k.inv(),
            k.current is Some,
        ensures
            k.live(k.current->0),
            k.tasks[k.current->0].pid == k.current->0,
            k.tasks[k.current->0].stack_pid == k.current->0,
            k.tasks[k.current->0].task_status == TaskStatus::Running,
            k.tasks[k.current->0].inv(),
            k.current->0 <= MAX_PID,
            k.live(INITPROC_PID),
    {
        reveal(KernelView::inv);
        assert(k.pid_live(k.current->0));
    }

    /// Every task in the ready queue of a state that meets the invariant is live
    /// and has a priority of at least 2.
    pub proof fn lemma_queue(k: KernelView)
        requires
            k.inv(),
        ensures
            forall|i: int|
                0 <= i < k.ready_queue.len() ==> k.live(#[trigger] k.ready_queue[i])
                    && k.tasks[k.ready_queue[i]].priority >= 2,
    {
        reveal(KernelView::inv);
    }

    /// Whether a new task can be created: whether a process identifier is left
    /// whose kernel stack fits below the trampoline.
    pub fn can_create(&self) -> (r: bool)
        ensures
            r == self@.can_create(),
    {
        self.pid_allocator.recycled.len() > 0 || self.pid_allocator.current <= MAX_PID
    }

    /// In a kernel that can create a task, the allocator and the kernel stack
    /// space are ready for it.
    pub proof fn lemma_can_create(kernel: Kernel)
        requires
            kernel.wf(),
            kernel@.can_create(),
        ensures
            super::task::can_create(kernel.pid_allocator, kernel.kernel_space@),
            kernel.pid_allocator.next() == kernel@.next_pid(),
            kernel@.next_pid() <= kernel.tasks.slots@.len(),
            !kernel@.live(kernel@.next_pid()),
    {
        reveal(KernelView::inv);
        lemma_next_pid(kernel@);
        lemma_stack_slot_free(kernel@, kernel@.next_pid());
        if kernel@.pid_recycled.len() > 0 {
            assert(kernel@.pid_recycled[kernel@.pid_recycled.len() - 1] < kernel@.pid_current);
        }
    }

    /// A kernel without tasks. `kernel_token` is the page-table token of the
    /// kernel address space.
    pub fn new(kernel_token: usize, trap_entry: TrapEntry) -> (kernel: Kernel)
        ensures
            kernel.wf(),
            kernel@.tasks == Map::<usize, TaskView>::empty(),
            kernel@.ready_queue == Seq::<usize>::empty(),
            kernel@.current is None,
            kernel@.idle_task_cx == TaskContextView::zero(),
            kernel@.pid_current == 0,
            kernel@.pid_recycled == Seq::<usize>::empty(),
            kernel@.kernel_space == (MemorySetView { token: kernel_token, areas: Seq::empty() }),
            kernel@.trap_entry == trap_entry,
    {
        proof {
            reveal(KernelView::inv);
        }
        Kernel {
            pid_allocator: PidAllocator::new(),
            kernel_space: MemorySet::new_bare(kernel_token),
            task_manager: TaskManager::new(),
            processor: Processor::new(),
            tasks: TaskTable::new(),
            trap_entry,
        }
    }
}

impl KernelView {
    /// Whether `other` has the same live tasks as this state, each with the same
    /// identity.
    pub open spec fn same_identities(self, other: KernelView) -> bool {
        &&& forall|pid: usize| #[trigger] other.live(pid) == self.live(pid)
        &&& forall|pid: usize| #[trigger]
            self.live(pid) ==> other.tasks[pid].pid == self.tasks[pid].pid
                && other.tasks[pid].stack_pid == self.tasks[pid].stack_pid
    }

    /// Whether `other` has the same live tasks as this state, each with the same
    /// parent and children.
    pub open spec fn same_kinship(self, other: KernelView) -> bool {
        &&& forall|pid: usize| #[trigger] other.live(pid) == self.live(pid)
        &&& forall|pid: usize| #[trigger]
            self.live(pid) ==> other.tasks[pid].parent == self.tasks[pid].parent
                && other.tasks[pid].children == self.tasks[pid].children
    }
}

/// The invariant on process identifiers carries over to a state with the same
/// allocator and the same tasks under the same identities.
pub proof fn lemma_frame_pids(k: KernelView, k2: KernelView)
    requires
        k.pids_inv(),
        k.same_identities(k2),
        k2.pid_current == k.pid_current,
        k2.pid_recycled == k.pid_recycled,
    ensures
        k2.pids_inv(),
{
    assert forall|q: usize| #[trigger] k2.live(q) <==> k2.pid_live(q) by {
        assert(k.live(q) <==> k.pid_live(q));
    }
    assert forall|q: usize| #[trigger] k2.live(q) implies k2.tasks[q].pid == q
        && k2.tasks[q].stack_pid == q by {
        assert(k.live(q));
    }
}

/// The invariant on kernel stacks carries over to a state with the same kernel
/// stack space and the same live tasks.
pub proof fn lemma_frame_stacks(k: KernelView, k2: KernelView)
    requires
        k.stacks_inv(),
        forall|pid: usize| #[trigger] k2.live(pid) == k.live(pid),
        k2.kernel_space == k.kernel_space,
    ensures
        k2.stacks_inv(),
{
    assert forall|q: usize| #[trigger] k2.live(q) implies k2.stack_mapped(q) by {
        assert(k.live(q));
    }
    assert forall|i: int| 0 <= i < k2.kernel_space.areas.len() implies k2.live(
        stack_owner(#[trigger] k2.kernel_space.areas[i]),
    ) by {
        assert(k.live(stack_owner(k.kernel_space.areas[i])));
    }
}

/// The invariant on parents and children carries over to a state with the same
/// live tasks, each with the same parent and children.
pub proof fn lemma_frame_tree(k: KernelView, k2: KernelView)
    requires
        k.tree_inv(),
        k.same_kinship(k2),
        k2.pid_current == k.pid_current,
    ensures
        k2.tree_inv(),
{
    assert forall|q: usize| #[trigger] k2.live(q) implies (k2.tasks[q].parent is None <==> q
        == INITPROC_PID) by {
        assert(k.live(q));
    }
    assert forall|q: usize| #[trigger] k2.live(q) && k2.tasks[q].parent is Some implies k2.live(
        k2.tasks[q].parent->0,
    ) && k2.tasks[k2.tasks[q].parent->0].children.contains(q) by {
        assert(k.live(q));
        assert(k.live(k.tasks[q].parent->0));
    }
    assert forall|q: usize, i: int|
        k2.live(q) && 0 <= i < k2.tasks[q].children.len() implies k2.live(
        #[trigger] k2.tasks[q].children[i],
    ) && k2.tasks[k2.tasks[q].children[i]].parent == Some(q) by {
        assert(k.live(q));
        assert(k.live(k.tasks[q].children[i]));
    }
    assert forall|q: usize| #[trigger] k2.live(q) implies k2.tasks[q].children.no_duplicates() by {
        assert(k.live(q));
    }
    if k2.pid_current > 0 {
        assert(k.live(INITPROC_PID));
    }
}

impl KernelView {
    /// Whether `task` can be created in this state: a process identifier is left,
    /// `task` carries the next one, is ready, has no children, and meets the task
    /// invariant; its parent, if it has one, is live and no zombie; and it has
    /// no parent only if it is the first task ever.
    pub open spec fn creatable(self, task: TaskView) -> bool {
        &&& self.can_create()
        &&& task.inv()
        &&& task.pid == self.next_pid()
        &&& task.stack_pid == self.next_pid()
        &&& task.task_status == TaskStatus::Ready
        &&& task.children.len() == 0
        &&& task.parent matches Some(parent) ==> self.live(parent)
            && self.tasks[parent].task_status != TaskStatus::Zombie
        &&& task.parent is None ==> self.pid_current == 0
    }
}

/// The next process identifier is not in use, and its kernel stack fits below
/// the trampoline.
pub proof fn lemma_next_pid(k: KernelView)
    requires
        k.pids_inv(),
        k.can_create(),
    ensures
        !k.live(k.next_pid()),
        k.next_pid() <= MAX_PID,
{
    let c = k.next_pid();
    assert(k.live(c) <==> k.pid_live(c));
    if k.pid_recycled.len() > 0 {
        assert(k.pid_recycled[k.pid_recycled.len() - 1] == c);
    }
}

proof fn lemma_create_pids(k: KernelView, task: TaskView)
    requires
        k.pids_inv(),
        k.creatable(task),
    ensures
        k.create(task).pids_inv(),
{
    let k2 = k.create(task);
    let c = k.next_pid();
    lemma_next_pid(k);
    let n = k.pid_recycled.len() as int;
    assert forall|q: usize| #[trigger] k2.live(q) <==> k2.pid_live(q) by {
        assert(k.live(q) <==> k.pid_live(q));
        assert(k2.live(q) <==> (q == c || k.live(q)));
        if n > 0 {
            if k.pid_recycled.contains(q) && q != c {
                let i = choose|i: int| 0 <= i < n && k.pid_recycled[i] == q;
                assert(k2.pid_recycled[i] == q);
            }
            if k2.pid_recycled.contains(q) {
                let i = choose|i: int| 0 <= i < n - 1 && k2.pid_recycled[i] == q;
                assert(k.pid_recycled[i] == q);
            }
        }
    }
    assert forall|q: usize| #[trigger] k2.live(q) implies k2.tasks[q].pid == q
        && k2.tasks[q].stack_pid == q by {
        if q != c {
            assert(k.live(q));
        }
    }
    assert forall|i: int| 0 <= i < k2.pid_recycled.len() implies #[trigger] k2.pid_recycled[i]
        < k2.pid_current by {
        assert(k.pid_recycled[i] < k.pid_current);
    }
}

proof fn lemma_create_stacks(k: KernelView, task: TaskView)
    requires
        k.inv(),
        k.creatable(task),
    ensures
        k.create(task).stacks_inv(),
{
    reveal(KernelView::inv);
    let k2 = k.create(task);
    let c = k.next_pid();
    lemma_next_pid(k);
    lemma_stack_slot_free(k, c);
    lemma_stack_area(c as int);
    lemma_insert_wf(k.kernel_space, stack_area(c as int));
    let n = k.kernel_space.areas.len() as int;
    assert forall|q: usize| #[trigger] k2.live(q) implies k2.stack_mapped(q) by {
        if q == c {
            assert(k2.kernel_space.areas[n] == stack_area(c as int));
        } else {
            assert(k.live(q));
            let i = choose|i: int| 0 <= i < n && k.kernel_space.areas[i] == stack_area(q as int);
            assert(k2.kernel_space.areas[i] == stack_area(q as int));
        }
    }
    assert forall|i: int| 0 <= i < k2.kernel_space.areas.len() implies k2.live(
        stack_owner(#[trigger] k2.kernel_space.areas[i]),
    ) && k2.kernel_space.areas[i] == stack_area(stack_owner(k2.kernel_space.areas[i]) as int) by {
        if i < n {
            assert(k.live(stack_owner(k.kernel_space.areas[i])));
        }
    }
}

proof fn lemma_create_queue(k: KernelView, task: TaskView)
    requires
        k.inv(),
        k.creatable(task),
    ensures
        k.create(task).queue_inv(),
        k.create(task).processor_inv(),
        k.create(task).task_inv(),
{
    reveal(KernelView::inv);
    let k2 = k.create(task);
    let c = k.next_pid();
    lemma_next_pid(k);
    let n = k.ready_queue.len() as int;
    assert forall|q: usize| q != c implies (#[trigger] k2.live(q) == k.live(q)
        && k2.tasks[q].task_status == k.tasks[q].task_status) by {}
    assert forall|i: int| 0 <= i < k2.ready_queue.len() implies k2.live(
        #[trigger] k2.ready_queue[i],
    ) && k2.tasks[k2.ready_queue[i]].task_status == TaskStatus::Ready by {
        if i < n {
            assert(k.live(k.ready_queue[i]));
        }
    }
    assert forall|q: usize| #[trigger]
        k2.live(q) && k2.tasks[q].task_status == TaskStatus::Ready implies k2.ready_queue.contains(
        q,
    ) by {
        if q == c {
            assert(k2.ready_queue[n] == c);
        } else {
            assert(k.live(q));
            let i = choose|i: int| 0 <= i < n && k.ready_queue[i] == q;
            assert(k2.ready_queue[i] == q);
        }
    }
    assert forall|i: int, j: int|
        0 <= i < k2.ready_queue.len() && 0 <= j < k2.ready_queue.len() && i
            != j implies k2.ready_queue[i] != k2.ready_queue[j] by {
        if i < n {
            assert(k.live(k.ready_queue[i]));
        }
        if j < n {
            assert(k.live(k.ready_queue[j]));
        }
    }
    assert forall|q: usize| #[trigger]
        k2.live(q) && k2.tasks[q].task_status == TaskStatus::Running implies k2.current == Some(
        q,
    ) by {
        assert(k.live(q));
    }
    assert(k.current matches Some(p) ==> k2.live(p) && k2.tasks[p].task_status
        == TaskStatus::Running);
    assert forall|q: usize| #[trigger] k2.live(q) implies k2.tasks[q].inv() by {
        if q != c {
            assert(k.live(q));
            assert(k.tasks[q].inv());
        }
    }
}

proof fn lemma_create_tree(k: KernelView, task: TaskView)
    requires
        k.inv(),
        k.creatable(task),
    ensures
        k.create(task).tree_inv(),
{
    reveal(KernelView::inv);
    let k2 = k.create(task);
    let c = k.next_pid();
    lemma_next_pid(k);
    assert forall|q: usize| q != c implies (#[trigger] k2.live(q) == k.live(q)
        && k2.tasks[q].parent == k.tasks[q].parent) by {}
    if task.parent is Some {
        assert(k.live(task.parent->0));
        assert(k.pid_live(task.parent->0));
        assert(k.live(INITPROC_PID));
    } else {
        assert(c == INITPROC_PID);
    }
    assert forall|q: usize| #[trigger] k2.live(q) implies (k2.tasks[q].parent is None <==> q
        == INITPROC_PID) by {
        if q != c {
            assert(k.live(q));
        }
    }
    assert forall|q: usize| #[trigger] k2.live(q) && k2.tasks[q].parent is Some implies k2.live(
        k2.tasks[q].parent->0,
    ) && k2.tasks[k2.tasks[q].parent->0].children.contains(q) by {
        if q == c {
            let p = task.parent->0;
            assert(k2.tasks[p].children == k.tasks[p].children.push(c));
            assert(k2.tasks[p].children[k.tasks[p].children.len() as int] == c);
        } else {
            assert(k.live(q));
            let p = k.tasks[q].parent->0;
            assert(k.live(p));
            let i = choose|i: int|
                0 <= i < k.tasks[p].children.len() && k.tasks[p].children[i] == q;
            assert(k2.tasks[p].children[i] == q);
        }
    }
    assert forall|q: usize, i: int|
        k2.live(q) && 0 <= i < k2.tasks[q].children.len() implies k2.live(
        #[trigger] k2.tasks[q].children[i],
    ) && k2.tasks[k2.tasks[q].children[i]].parent == Some(q) by {
        if q != c {
            assert(k.live(q));
            if i < k.tasks[q].children.len() {
                assert(k.live(k.tasks[q].children[i]));
            }
        }
    }
    assert forall|q: usize| #[trigger] k2.live(q) implies k2.tasks[q].children.no_duplicates() by {
        if q != c {
            assert(k.live(q));
            let old_kids = k.tasks[q].children;
            assert forall|i: int| 0 <= i < old_kids.len() implies old_kids[i] != c by {
                assert(k.live(old_kids[i]));
            }
        }
    }
}

/// Creating a task keeps the invariant.
pub proof fn lemma_create_inv(k: KernelView, task: TaskView)
    requires
        k.inv(),
        k.creatable(task),
    ensures
        k.create(task).inv(),
{
    lemma_create_stacks(k, task);
    lemma_create_queue(k, task);
    lemma_create_tree(k, task);
    assert(k.pids_inv()) by {
        reveal(KernelView::inv);
    }
    lemma_create_pids(k, task);
    reveal(KernelView::inv);
}

/// In a state that meets the invariant, the kernel stack of a process identifier
/// that is not in use is not mapped: the stack of the next new task has room.
pub proof fn lemma_stack_slot_free(k: KernelView, pid: usize)
    requires
        k.inv(),
        !k.live(pid),
        pid <= MAX_PID,
    ensures
        k.kernel_space.range_free(
            stack_area(pid as int).start_vpn as int,
            stack_area(pid as int).end_vpn as int,
        ),
        forall|i: int|
            0 <= i < k.kernel_space.areas.len() ==> (#[trigger] k.kernel_space.areas[i]).start_vpn
                != stack_area(pid as int).start_vpn,
{
    reveal(KernelView::inv);
    let slot = stack_area(pid as int);
    assert forall|i: int| 0 <= i < k.kernel_space.areas.len() implies (
    #[trigger] k.kernel_space.areas[i]).disjoint(slot) && k.kernel_space.areas[i].start_vpn
        != slot.start_vpn by {
        let q = stack_owner(k.kernel_space.areas[i]);
        assert(k.live(q));
        assert(k.pid_live(q));
        lemma_stack_areas_apart(q as int, pid as int);
    }
    assert forall|vpn: int| slot.start_vpn <= vpn < slot.end_vpn implies !k.kernel_space.mapped(
        vpn,
    ) by {
        if k.kernel_space.mapped(vpn) {
            let i = choose|i: int|
                0 <= i < k.kernel_space.areas.len() && (#[trigger] k.kernel_space.areas[i]).contains(
                    vpn,
                );
            assert(k.kernel_space.areas[i].disjoint(slot));
            assert(slot.contains(vpn));
        }
    }
}

/// In a state that meets the invariant, one region of the kernel stack space
/// starts at the bottom page of the stack of a live task: that stack. Removing
/// what starts at that page removes that stack and nothing else.
pub proof fn lemma_stack_slot_taken(k: KernelView, pid: usize) -> (idx: int)
    requires
        k.inv(),
        k.live(pid),
    ensures
        0 <= idx < k.kernel_space.areas.len(),
        k.kernel_space.areas[idx] == stack_area(pid as int),
        k.kernel_space.remove_start(stack_area(pid as int).start_vpn as int).areas
            == k.kernel_space.areas.remove(idx),
        forall|j: int|
            0 <= j < k.kernel_space.areas.len() && j != idx ==> (
            #[trigger] k.kernel_space.areas[j]) != stack_area(pid as int),
{
    reveal(KernelView::inv);
    let areas = k.kernel_space.areas;
    let slot = stack_area(pid as int);
    assert(k.stack_mapped(pid));
    let idx = choose|i: int| 0 <= i < areas.len() && areas[i] == slot;
    assert(k.pid_live(pid));
    lemma_stack_area(pid as int);
    assert forall|j: int| 0 <= j < areas.len() && j != idx implies (#[trigger] areas[j]) != slot
        && areas[j].start_vpn != slot.start_vpn by {
        let q = stack_owner(areas[j]);
        assert(k.live(q));
        assert(k.pid_live(q));
        if q == pid {
            assert(areas[j].disjoint(areas[idx]));
            assert(slot.contains(slot.start_vpn as int));
        } else {
            lemma_stack_areas_apart(q as int, pid as int);
        }
    }
    assert forall|j: int| 0 <= j < areas.len() implies (starts_in(
        #[trigger] areas[j],
        slot.start_vpn as int,
        slot.start_vpn + 1,
    ) <==> j == idx) by {
        if j != idx {
            assert(areas[j].start_vpn != slot.start_vpn);
        }
    }
    lemma_without_starts_one(areas, slot.start_vpn as int, slot.start_vpn + 1, idx);
    idx
}

} // verus!
