//! The task control block, and the operations that build one or replace its
//! program.

use vstd::prelude::*;
use crate::config::{MAX_PID, MAX_SYSCALL_NUM};
use crate::mm::{MemorySet, MemorySetView};
use crate::trap::{TrapContext, TrapContextView, TrapEntry};
use super::context::{TaskContext, TaskContextView};
use super::pid::{
    KernelStack,
    PidAllocator,
    PidHandle,
    pid_alloc,
    spec_kernel_stack_position,
    stack_area,
};

verus! {

/// The priority of a task that never set one.
pub const DEFAULT_PRIORITY: u8 = 16;

/// Where a task stands in its life.
#[derive(Copy, Clone, Debug, PartialEq, Eq, Structural)]
pub enum TaskStatus {
    UnInit,
    Ready,
    Running,
    Zombie,
}

/// A program image that the loader has turned into an address space.
pub struct ElfImage {
    /// The address space, with the program's segments, its user stack and its
    /// trap frame page mapped.
    pub memory_set: MemorySet,
    /// Number of the physical page that holds the trap frame.
    pub trap_cx_ppn: usize,
    /// Initial user stack pointer.
    pub user_sp: usize,
    /// Address of the program's first instruction.
    pub entry_point: usize,
}

/// The part of a task control block that changes while the task lives.
pub struct TaskControlBlockInner {
    /// Number of the physical page that holds the trap frame.
    pub trap_cx_ppn: usize,
    /// The trap frame.
    pub trap_cx: TrapContext,
    /// User data lies below this address.
    pub base_size: usize,
    /// The registers with which the task is switched to.
    pub task_cx: TaskContext,
    pub task_status: TaskStatus,
    /// The task's address space.
    pub memory_set: MemorySet,
    /// Process identifier of the parent; only the initial process has none.
    pub parent: Option<usize>,
    /// Process identifiers of the children that were not yet reaped, oldest first.
    pub children: Vec<usize>,
    /// Set when the task exits, read when its parent reaps it.
    pub exit_code: i32,
    /// Microsecond timestamp of the task's first dispatch; zero before.
    pub start_time: usize,
    /// How often the task made each system call.
    pub syscall_times: [u32; MAX_SYSCALL_NUM],
    /// Scheduling priority, at least 2.
    pub priority: u8,
    /// Stride accumulator: the scheduler picks the least, and moves it on.
    pub pass: usize,
}

/// A task control block: the identity of a task, which never changes, and its
/// changing state.
pub struct TaskControlBlock {
    pub pid: PidHandle,
    pub kernel_stack: KernelStack,
    pub inner: TaskControlBlockInner,
}

/// The mathematical content of a [`TaskControlBlock`].
pub struct TaskView {
    pub pid: usize,
    /// The process identifier that places the kernel stack.
    pub stack_pid: usize,
    pub trap_cx_ppn: usize,
    pub trap_cx: TrapContextView,
    pub base_size: usize,
    pub task_cx: TaskContextView,
    pub task_status: TaskStatus,
    pub memory_set: MemorySetView,
    pub parent: Option<usize>,
    pub children: Seq<usize>,
    pub exit_code: i32,
    pub start_time: usize,
    pub syscall_times: Seq<u32>,
    pub priority: u8,
    pub pass: usize,
}

impl View for TaskControlBlock {
    type V = TaskView;

    open spec fn view(&self) -> TaskView {
        TaskView {
            pid: self.pid.0,
            stack_pid: self.kernel_stack.pid,
            trap_cx_ppn: self.inner.trap_cx_ppn,
            trap_cx: self.inner.trap_cx@,
            base_size: self.inner.base_size,
            task_cx: self.inner.task_cx@,
            task_status: self.inner.task_status,
            memory_set: self.inner.memory_set@,
            parent: self.inner.parent,
            children: self.inner.children@,
            exit_code: self.inner.exit_code,
            start_time: self.inner.start_time,
            syscall_times: self.inner.syscall_times@,
            priority: self.inner.priority,
            pass: self.inner.pass,
        }
    }
}

impl TaskView {
    /// A task as it is created: ready, with the default priority, pass zero, no
    /// children, and nothing counted.
    pub open spec fn created(
        pid: usize,
        parent: Option<usize>,
        memory_set: MemorySetView,
        trap_cx_ppn: usize,
        trap_cx: TrapContextView,
        base_size: usize,
        trap_return: usize,
    ) -> TaskView {
        TaskView {
            pid,
            stack_pid: pid,
            trap_cx_ppn,
            trap_cx,
            base_size,
            task_cx: TaskContextView::trap_return(
                spec_kernel_stack_position(pid as int).1 as usize,
                trap_return,
            ),
            task_status: TaskStatus::Ready,
            memory_set,
            parent,
            children: Seq::empty(),
            exit_code: 0,
            start_time: 0,
            syscall_times: Seq::new(MAX_SYSCALL_NUM as nat, |i: int| 0u32),
            priority: DEFAULT_PRIORITY,
            pass: 0,
        }
    }

    /// The trap frame with which the program of `elf` starts in a task whose
    /// kernel stack is that of `pid`.
    pub open spec fn initial_trap_cx(
        pid: usize,
        elf: ElfImage,
        kernel_token: usize,
        entry: TrapEntry,
    ) -> TrapContextView {
        TrapContextView::app_init(
            elf.entry_point,
            elf.user_sp,
            kernel_token,
            spec_kernel_stack_position(pid as int).1 as usize,
            entry.trap_handler,
        )
    }
}

/// What creating a task asks of the identifier allocator and the kernel address
/// space: an identifier can be handed out, its kernel stack fits below the
/// trampoline, and the pages of that stack are not mapped.
pub open spec fn can_create(pids: PidAllocator, kernel_space: MemorySetView) -> bool {
    &&& pids.wf()
    &&& pids.can_alloc()
    &&& pids.next() <= MAX_PID
    &&& kernel_space.wf()
    &&& kernel_space.range_free(
        stack_area(pids.next() as int).start_vpn as int,
        stack_area(pids.next() as int).end_vpn as int,
    )
}

/// What creating a task does to the identifier allocator and the kernel address
/// space: the next identifier is handed out and its kernel stack is mapped.
pub open spec fn created_with(
    before: PidAllocator,
    after: PidAllocator,
    space_before: MemorySetView,
    space_after: MemorySetView,
) -> bool {
    let pid = before.next();
    &&& after.wf()
    &&& before.recycled@.len() > 0 ==> after.current == before.current && after.recycled@
        == before.recycled@.drop_last()
    &&& before.recycled@.len() == 0 ==> after.current == before.current + 1 && after.recycled@
        == before.recycled@
    &&& after.live(pid)
    &&& !before.live(pid)
    &&& forall|p: usize| p != pid ==> after.live(p) == before.live(p)
    &&& space_after == space_before.insert(stack_area(pid as int))
    &&& space_after.wf()
}

impl TaskControlBlockInner {
    /// The task's trap frame.
    pub fn get_trap_cx(&mut self) -> (cx: &mut TrapContext)
        ensures
            *cx == old(self).trap_cx,
            *final(self) == (TaskControlBlockInner { trap_cx: *final(cx), ..*old(self) }),
    {
        &mut self.trap_cx
    }

    /// The page-table token of the task's address space.
    pub fn get_user_token(&self) -> (token: usize)
        ensures
            token == self.memory_set@.token,
    {
        self.memory_set.token()
    }

    fn get_status(&self) -> (status: TaskStatus)
        ensures
            status == self.task_status,
    {
        self.task_status
    }

    /// Whether the task has exited and waits to be reaped.
    pub fn is_zombie(&self) -> (r: bool)
        ensures
            r == (self.task_status == TaskStatus::Zombie),
    {
        self.get_status() == TaskStatus::Zombie
    }
}

impl TaskControlBlock {
    /// Access to the changing part of the control block.
    pub fn inner_exclusive_access(&mut self) -> (inner: &mut TaskControlBlockInner)
        ensures
            *inner == old(self).inner,
            final(self).inner == *final(inner),
            final(self).pid == old(self).pid,
            final(self).kernel_stack == old(self).kernel_stack,
    {
        &mut self.inner
    }

    /// Creates a task without a parent that runs the program of `elf`: takes a
    /// process identifier from `pids`, maps its kernel stack into `kernel_space`,
    /// and sets the trap frame so that the task starts at the program's entry
    /// point on the program's user stack.
    pub fn new(
        elf: ElfImage,
        pids: &mut PidAllocator,
        kernel_space: &mut MemorySet,
        entry: TrapEntry,
    ) -> (task: TaskControlBlock)
        requires
            can_create(*old(pids), old(kernel_space)@),
        ensures
            task@ == TaskView::created(
                old(pids).next(),
                None,
                elf.memory_set@,
                elf.trap_cx_ppn,
                TaskView::initial_trap_cx(old(pids).next(), elf, old(kernel_space)@.token, entry),
                elf.user_sp,
                entry.trap_return,
            ),
            created_with(*old(pids), *final(pids), old(kernel_space)@, final(kernel_space)@),
    {
        let ElfImage { memory_set, trap_cx_ppn, user_sp, entry_point } = elf;
        let pid_handle = pid_alloc(pids);
        let kernel_stack = KernelStack::new(&pid_handle, kernel_space);
        let kernel_stack_top: usize = kernel_stack.get_top();
        let task_control_block = TaskControlBlock {
            pid: pid_handle,
            kernel_stack,
            inner: TaskControlBlockInner {
                trap_cx_ppn,
                trap_cx: TrapContext::app_init_context(
                    entry_point,
                    user_sp,
                    kernel_space.token(),
                    kernel_stack_top,
                    entry.trap_handler,
                ),
                base_size: user_sp,
                task_cx: TaskContext::goto_trap_return(kernel_stack_top, entry.trap_return),
                task_status: TaskStatus::Ready,
                memory_set,
                parent: None,
                children: Vec::new(),
                exit_code: 0,
                priority: DEFAULT_PRIORITY,
                pass: 0,
                start_time: 0,
                syscall_times: [0; MAX_SYSCALL_NUM],
            },
        };
        assert(task_control_block@.syscall_times =~= Seq::new(
            MAX_SYSCALL_NUM as nat,
            |i: int| 0u32,
        ));
        task_control_block
    }

    /// Replaces the task's program by that of `elf`: the address space and the
    /// trap frame are new, everything else stays.
    pub fn exec(&mut self, elf: ElfImage, kernel_space: &MemorySet, entry: TrapEntry)
        requires
            old(self).kernel_stack.pid <= MAX_PID,
        ensures
            final(self)@ == (TaskView {
                memory_set: elf.memory_set@,
                trap_cx_ppn: elf.trap_cx_ppn,
                trap_cx: TaskView::initial_trap_cx(
                    old(self).kernel_stack.pid,
                    elf,
                    kernel_space@.token,
                    entry,
                ),
                ..old(self)@
            }),
    {
        let ElfImage { memory_set, trap_cx_ppn, user_sp, entry_point } = elf;
        self.inner.memory_set = memory_set;
        self.inner.trap_cx_ppn = trap_cx_ppn;
        self.inner.trap_cx = TrapContext::app_init_context(
            entry_point,
            user_sp,
            kernel_space.token(),
            self.kernel_stack.get_top(),
            entry.trap_handler,
        );
    }

    /// Forks: creates a child with the same regions in its address space, which
    /// the memory subsystem knows as `token` and whose trap frame it holds in page
    /// `trap_cx_ppn`. The trap frame of the child is that of `self`, but for the
    /// kernel stack pointer, which points to the kernel stack of the child. The
    /// child becomes the youngest child of `self`.
    pub fn fork(
        &mut self,
        token: usize,
        trap_cx_ppn: usize,
        pids: &mut PidAllocator,
        kernel_space: &mut MemorySet,
        entry: TrapEntry,
    ) -> (child: TaskControlBlock)
        requires
            can_create(*old(pids), old(kernel_space)@),
        ensures
            child@ == TaskView::created(
                old(pids).next(),
                Some(old(self)@.pid),
                MemorySetView { token, areas: old(self)@.memory_set.areas },
                trap_cx_ppn,
                TrapContextView {
                    kernel_sp: spec_kernel_stack_position(old(pids).next() as int).1 as usize,
                    ..old(self)@.trap_cx
                },
                old(self)@.base_size,
                entry.trap_return,
            ),
            final(self)@ == (TaskView {
                children: old(self)@.children.push(old(pids).next()),
                ..old(self)@
            }),
            created_with(*old(pids), *final(pids), old(kernel_space)@, final(kernel_space)@),
    {
        let memory_set = MemorySet::from_existed_user(&self.inner.memory_set, token);
        let pid_handle = pid_alloc(pids);
        let kernel_stack = KernelStack::new(&pid_handle, kernel_space);
        let kernel_stack_top: usize = kernel_stack.get_top();
        let mut task_control_block = TaskControlBlock {
            pid: pid_handle,
            kernel_stack,
            inner: TaskControlBlockInner {
                trap_cx_ppn,
                trap_cx: self.inner.trap_cx,
                base_size: self.inner.base_size,
                task_cx: TaskContext::goto_trap_return(kernel_stack_top, entry.trap_return),
                task_status: TaskStatus::Ready,
                memory_set,
                parent: Some(self.pid.0),
                children: Vec::new(),
                exit_code: 0,
                priority: DEFAULT_PRIORITY,
                pass: 0,
                start_time: 0,
                syscall_times: [0; MAX_SYSCALL_NUM],
            },
        };
        self.inner.children.push(task_control_block.pid.0);
        task_control_block.inner.trap_cx.kernel_sp = kernel_stack_top;
        assert(task_control_block@.syscall_times =~= Seq::new(
            MAX_SYSCALL_NUM as nat,
            |i: int| 0u32,
        ));
        task_control_block
    }

    /// The task's process identifier.
    pub fn getpid(&self) -> (pid: usize)
        ensures
            pid == self@.pid,
    {
        self.pid.0
    }

    /// Spawns: creates a child that runs the program of `elf`. Its address space
    /// is that of `elf`, and its trap frame starts the program at its entry point.
    /// The child becomes the youngest child of `self`.
    pub fn spawn(
        &mut self,
        elf: ElfImage,
        pids: &mut PidAllocator,
        kernel_space: &mut MemorySet,
        entry: TrapEntry,
    ) -> (child: TaskControlBlock)
        requires
            can_create(*old(pids), old(kernel_space)@),
        ensures
            child@ == TaskView::created(
                old(pids).next(),
                Some(old(self)@.pid),
                elf.memory_set@,
                elf.trap_cx_ppn,
                TaskView::initial_trap_cx(old(pids).next(), elf, old(kernel_space)@.token, entry),
                old(self)@.base_size,
                entry.trap_return,
            ),
            final(self)@ == (TaskView {
                children: old(self)@.children.push(old(pids).next()),
                ..old(self)@
            }),
            created_with(*old(pids), *final(pids), old(kernel_space)@, final(kernel_space)@),
    {
        let ElfImage { memory_set, trap_cx_ppn, user_sp, entry_point } = elf;
        let pid_handle = pid_alloc(pids);
        let kernel_stack = KernelStack::new(&pid_handle, kernel_space);
        let kernel_stack_top: usize = kernel_stack.get_top();
        let mut task_control_block = TaskControlBlock {
            pid: pid_handle,
            kernel_stack,
            inner: TaskControlBlockInner {
                trap_cx_ppn,
                trap_cx: TrapContext::app_init_context(
                    entry_point,
                    user_sp,
                    kernel_space.token(),
                    kernel_stack_top,
                    entry.trap_handler,
                ),
                base_size: self.inner.base_size,
                task_cx: TaskContext::goto_trap_return(kernel_stack_top, entry.trap_return),
                task_status: TaskStatus::Ready,
                memory_set,
                parent: Some(self.pid.0),
                children: Vec::new(),
                exit_code: 0,
                priority: DEFAULT_PRIORITY,
                pass: 0,
                start_time: 0,
                syscall_times: [0; MAX_SYSCALL_NUM],
            },
        };
        self.inner.children.push(task_control_block.pid.0);
        task_control_block.inner.trap_cx.kernel_sp = kernel_stack_top;
        assert(task_control_block@.syscall_times =~= Seq::new(
            MAX_SYSCALL_NUM as nat,
            |i: int| 0u32,
        ));
        task_control_block
    }
}

} // verus!
