//! The processor: which task runs, the dispatch step that picks the next one, and
//! the operations that act on the running task.

use vstd::prelude::*;
use crate::config::{MAX_SYSCALL_NUM, PAGE_SIZE};
use crate::mm::{
    MAP_PERM_U,
    MapArea,
    lemma_insert_wf,
    lemma_remove_starts_wf,
    lemma_without_starts_nothing,
    lemma_without_starts_twice,
    page_ceil,
    page_floor,
    spec_page_ceil,
    spec_page_floor,
};
use crate::trap::{TrapContext, TrapContextView};
use super::context::{TaskContext, TaskContextView};
use super::kernel::{
    Kernel,
    KernelView,
    lemma_frame_pids,
    lemma_frame_stacks,
    lemma_frame_tree,
};
use super::manager::{
    fetch_index,
    fetch_task,
    lemma_stride_pick_bounds,
    pass_after,
    queue_passes,
};
use super::switch::{ContextSlot, Switch};
use super::task::{TaskControlBlockInner, TaskStatus, TaskView};

verus! {

/// The state of the one processor.
pub struct Processor {
    /// The running task, by process identifier; none while the idle control flow
    /// runs.
    pub current: Option<usize>,
    /// The register snapshot of the idle control flow.
    pub idle_task_cx: TaskContext,
}

impl Processor {
    /// A processor that runs its idle control flow.
    pub fn new() -> (p: Processor)
        ensures
            p.current is None,
            p.idle_task_cx@ == TaskContextView::zero(),
    {
        Processor { current: None, idle_task_cx: TaskContext::zero_init() }
    }

    /// The register snapshot of the idle control flow, for the switch primitive
    /// to save into.
    pub fn get_idle_task_cx_ptr(&mut self) -> (cx: &mut TaskContext)
        ensures
            *cx == old(self).idle_task_cx,
            final(self).idle_task_cx == *final(cx),
            final(self).current == old(self).current,
    {
        &mut self.idle_task_cx
    }

    /// Takes the running task off the processor.
    pub fn take_current(&mut self) -> (r: Option<usize>)
        ensures
            r == old(self).current,
            final(self).current is None,
            final(self).idle_task_cx == old(self).idle_task_cx,
    {
        self.current.take()
    }

    /// The running task.
    pub fn current(&self) -> (r: Option<usize>)
        ensures
            r == self.current,
    {
        self.current
    }
}

/// Replacing the control block of a live task by one with the same identity,
/// status, parent and children, which by itself meets the task invariant, keeps
/// the invariant of the whole.
pub proof fn lemma_with_task_inv(k: KernelView, pid: usize, task: TaskView)
    requires
        k.inv(),
        k.live(pid),
        task.inv(),
        task.pid == k.tasks[pid].pid,
        task.stack_pid == k.tasks[pid].stack_pid,
        task.task_status == k.tasks[pid].task_status,
        task.parent == k.tasks[pid].parent,
        task.children == k.tasks[pid].children,
    ensures
        k.with_task(pid, task).inv(),
{
    reveal(KernelView::inv);
    let k2 = k.with_task(pid, task);
    assert(k.same_identities(k2) && k.same_kinship(k2));
    lemma_frame_pids(k, k2);
    lemma_frame_stacks(k, k2);
    lemma_frame_tree(k, k2);
    assert(k2.processor_inv()) by {
        assert forall|q: usize| #[trigger]
            k2.live(q) && k2.tasks[q].task_status == TaskStatus::Running implies k2.current
            == Some(q) by {
            assert(k.live(q));
        }
    }
    assert(k2.queue_inv()) by {
        assert forall|i: int| 0 <= i < k2.ready_queue.len() implies k2.live(
            #[trigger] k2.ready_queue[i],
        ) && k2.tasks[k2.ready_queue[i]].task_status == TaskStatus::Ready by {
            assert(k.live(k.ready_queue[i]));
        }
        assert forall|q: usize| #[trigger]
            k2.live(q) && k2.tasks[q].task_status == TaskStatus::Ready
            implies k2.ready_queue.contains(q) by {
            assert(k.live(q));
        }
    }
    assert(k2.task_inv()) by {
        assert forall|q: usize| #[trigger] k2.live(q) implies k2.tasks[q].inv() by {
            assert(k.live(q));
        }
    }
}

/// The priority that a task holds after it asked for `prio`, which is at least
/// 2: `prio` itself if it fits into the eight bits of a priority, else the
/// highest priority that does.
pub open spec fn stored_priority(prio: int) -> u8 {
    if prio > u8::MAX {
        u8::MAX
    } else {
        prio as u8
    }
}

impl KernelView {
    /// The state after the running task asked for priority `prio`, and what the
    /// task is told: a priority below 2 is refused with -1, any other is set,
    /// as far as it fits into eight bits, and handed back.
    pub open spec fn set_priority(self, prio: int) -> (KernelView, int) {
        if prio < 2 {
            (self, -1)
        } else {
            let pid = self.current->0;
            (
                self.with_task(
                    pid,
                    TaskView { priority: stored_priority(prio), ..self.tasks[pid] },
                ),
                prio,
            )
        }
    }

    /// This state with `cx` as the trap frame of the running task.
    pub open spec fn with_trap_cx(self, cx: TrapContextView) -> KernelView {
        let pid = self.current->0;
        self.with_task(pid, TaskView { trap_cx: cx, ..self.tasks[pid] })
    }

    /// The state after the running task was counted one call of system call `id`.
    pub open spec fn update_syscall_times(self, id: usize) -> KernelView {
        let pid = self.current->0;
        let times = self.tasks[pid].syscall_times;
        self.with_task(
            pid,
            TaskView {
                syscall_times: times.update(id as int, (times[id as int] + 1) as u32),
                ..self.tasks[pid]
            },
        )
    }
}

/// Takes the running task off `processor`.
pub fn take_current_task(processor: &mut Processor) -> (r: Option<usize>)
    ensures
        r == old(processor).current,
        final(processor).current is None,
        final(processor).idle_task_cx == old(processor).idle_task_cx,
{
    processor.take_current()
}

/// The running task.
pub fn current_task(processor: &Processor) -> (r: Option<usize>)
    ensures
        r == processor.current,
{
    processor.current()
}

/// The page-table token of the running task's address space.
pub fn current_user_token(kernel: &Kernel) -> (token: usize)
    requires
        kernel.wf(),
        kernel@.current is Some,
    ensures
        token == kernel@.tasks[kernel@.current->0].memory_set.token,
{
    proof {
        Kernel::lemma_current(kernel@);
    }
    let pid: usize = current_task(&kernel.processor).unwrap();
    kernel.tasks.get(pid).inner.get_user_token()
}

/// The trap frame of the running task.
pub fn current_trap_cx(kernel: &mut Kernel) -> (cx: &mut TrapContext)
    requires
        old(kernel).wf(),
        old(kernel)@.current is Some,
    ensures
        cx@ == old(kernel)@.tasks[old(kernel)@.current->0].trap_cx,
        final(kernel)@ == old(kernel)@.with_trap_cx(final(cx)@),
        final(kernel).wf(),
{
    let pid: usize = current_task(&kernel.processor).unwrap();
    proof {
        let k = kernel@;
        Kernel::lemma_current(k);
        assert forall|cx: TrapContextView| (#[trigger] k.with_trap_cx(cx)).inv() by {
            lemma_with_task_inv(k, pid, k.with_trap_cx(cx).tasks[pid]);
        }
    }
    kernel.tasks.get_mut(pid).inner_exclusive_access().get_trap_cx()
}

/// The switch by which the control flow that saves its registers in
/// `switched_task_cx` hands the processor back to the idle control flow.
pub fn schedule(switched_task_cx: ContextSlot) -> (switch: Switch)
    ensures
        switch == (Switch { from: switched_task_cx, to: ContextSlot::Idle }),
{
    Switch { from: switched_task_cx, to: ContextSlot::Idle }
}

/// Counts one call of system call `id` for the running task.
pub fn update_syscall_times(kernel: &mut Kernel, id: usize)
    requires
        old(kernel).wf(),
        old(kernel)@.current is Some,
        id < MAX_SYSCALL_NUM,
        old(kernel)@.tasks[old(kernel)@.current->0].syscall_times[id as int] < u32::MAX,
    ensures
        final(kernel)@ == old(kernel)@.update_syscall_times(id),
        final(kernel).wf(),
{
    proof {
        Kernel::lemma_current(kernel@);
    }
    let pid: usize = current_task(&kernel.processor).unwrap();
    let task = kernel.tasks.get_mut(pid);
    task.inner.syscall_times[id] += 1;
    proof {
        lemma_with_task_inv(old(kernel)@, pid, old(kernel)@.update_syscall_times(id).tasks[pid]);
    }
}

/// How often the running task made each system call.
pub fn get_syscall_times(kernel: &Kernel) -> (times: [u32; MAX_SYSCALL_NUM])
    requires
        kernel.wf(),
        kernel@.current is Some,
    ensures
        times@ == kernel@.tasks[kernel@.current->0].syscall_times,
{
    proof {
        Kernel::lemma_current(kernel@);
    }
    let pid: usize = current_task(&kernel.processor).unwrap();
    kernel.tasks.get(pid).inner.syscall_times
}

/// Microseconds from the running task's start time to `now_us`, the present
/// timer reading.
pub fn get_run_time(kernel: &Kernel, now_us: usize) -> (t: usize)
    requires
        kernel.wf(),
        kernel@.current is Some,
        now_us >= kernel@.tasks[kernel@.current->0].start_time,
    ensures
        t == now_us - kernel@.tasks[kernel@.current->0].start_time,
{
    proof {
        Kernel::lemma_current(kernel@);
    }
    let pid: usize = current_task(&kernel.processor).unwrap();
    let start_time: usize = kernel.tasks.get(pid).inner.start_time;
    now_us - start_time
}

/// Sets the priority of the running task to `prio`, and hands `prio` back; a
/// priority below 2 is refused with -1. A priority holds eight bits: one that
/// is asked for beyond 255 is set as 255.
pub fn set_priority(kernel: &mut Kernel, prio: isize) -> (r: isize)
    requires
        old(kernel).wf(),
        old(kernel)@.current is Some,
    ensures
        final(kernel)@ == old(kernel)@.set_priority(prio as int).0,
        r == old(kernel)@.set_priority(prio as int).1,
        final(kernel).wf(),
{
    if prio < 2 {
        return -1;
    }
    proof {
        Kernel::lemma_current(kernel@);
    }
    let pid: usize = current_task(&kernel.processor).unwrap();
    let priority: u8 = if prio > 255 {
        255
    } else {
        prio as u8
    };
    kernel.tasks.get_mut(pid).inner.priority = priority;
    proof {
        lemma_with_task_inv(
            old(kernel)@,
            pid,
            old(kernel)@.set_priority(prio as int).0.tasks[pid],
        );
    }
    prio
}

/// The region that `mmap` maps for the request `(start, len, port)`: the pages
/// from the one that holds `start` up to the first that starts at or after
/// `start + len`, with the three bits of `port` (read, write, execute) moved up
/// by one and the user bit added.
pub open spec fn mmap_area(start: usize, len: usize, port: usize) -> MapArea {
    MapArea {
        start_vpn: spec_page_floor(start as int) as usize,
        end_vpn: spec_page_ceil(start + len) as usize,
        perm: (2 * port + MAP_PERM_U) as u8,
    }
}

impl KernelView {
    /// Whether `mmap` refuses the request `(start, len, port)` of the running
    /// task: `start` is not page aligned, `port` has a bit beyond the lowest
    /// three or none of these, or a page of the range is mapped already.
    pub open spec fn mmap_refused(self, start: usize, len: usize, port: usize) -> bool {
        let area = mmap_area(start, len, port);
        ||| start as int % PAGE_SIZE as int != 0
        ||| port > 7
        ||| port == 0
        ||| !self.tasks[self.current->0].memory_set.range_free(
            area.start_vpn as int,
            area.end_vpn as int,
        )
    }

    /// The state after the running task asked to map `(start, len, port)`, and
    /// what the task is told: -1 and nothing changed if the request is refused,
    /// else 0 and the region mapped.
    pub open spec fn mmap(self, start: usize, len: usize, port: usize) -> (KernelView, int) {
        if self.mmap_refused(start, len, port) {
            (self, -1)
        } else {
            let pid = self.current->0;
            (
                self.with_task(
                    pid,
                    TaskView {
                        memory_set: self.tasks[pid].memory_set.insert(mmap_area(start, len, port)),
                        ..self.tasks[pid]
                    },
                ),
                0,
            )
        }
    }

    /// Whether `munmap` refuses the request `(start, len)` of the running task:
    /// `start` is not page aligned, or a page of the range is not mapped.
    pub open spec fn munmap_refused(self, start: usize, len: usize) -> bool {
        ||| start as int % PAGE_SIZE as int != 0
        ||| !self.tasks[self.current->0].memory_set.range_mapped(
            spec_page_floor(start as int),
            spec_page_ceil(start + len),
        )
    }

    /// The state after the running task asked to unmap `(start, len)`, and what
    /// the task is told: -1 and nothing changed if the request is refused, else 0
    /// and every region unmapped that starts at a page of the range.
    pub open spec fn munmap(self, start: usize, len: usize) -> (KernelView, int) {
        if self.munmap_refused(start, len) {
            (self, -1)
        } else {
            let pid = self.current->0;
            (
                self.with_task(
                    pid,
                    TaskView {
                        memory_set: self.tasks[pid].memory_set.remove_starts(
                            spec_page_floor(start as int),
                            spec_page_ceil(start + len),
                        ),
                        ..self.tasks[pid]
                    },
                ),
                0,
            )
        }
    }

    /// The state after one dispatch step of the idle control flow at the timer
    /// reading `now_us`, and the switch that the step asks for: with an empty
    /// ready queue nothing changes and there is no switch; else the task that the
    /// scheduler picks leaves the queue, moves its pass on, and becomes the
    /// running task, and the switch goes from the idle control flow to it. A
    /// task whose start time is still zero starts now.
    pub open spec fn run_tasks(self, now_us: usize) -> (KernelView, Option<Switch>) {
        if self.ready_queue.len() == 0 {
            (self, None)
        } else {
            let idx = fetch_index(self.ready_queue, self.tasks);
            let pid = self.ready_queue[idx];
            (
                KernelView {
                    tasks: self.tasks.insert(
                        pid,
                        TaskView {
                            pass: pass_after(self.tasks[pid].pass, self.tasks[pid].priority),
                            task_status: TaskStatus::Running,
                            start_time: if self.tasks[pid].start_time == 0 {
                                now_us
                            } else {
                                self.tasks[pid].start_time
                            },
                            ..self.tasks[pid]
                        },
                    ),
                    ready_queue: self.ready_queue.remove(idx),
                    current: Some(pid),
                    ..self
                },
                Some(Switch { from: ContextSlot::Idle, to: ContextSlot::Task(pid) }),
            )
        }
    }
}

/// `mmap` keeps the invariant.
pub proof fn lemma_mmap_inv(k: KernelView, start: usize, len: usize, port: usize)
    requires
        k.inv(),
        k.current is Some,
    ensures
        k.mmap(start, len, port).0.inv(),
{
    Kernel::lemma_current(k);
    if !k.mmap_refused(start, len, port) {
        let pid = k.current->0;
        lemma_insert_wf(k.tasks[pid].memory_set, mmap_area(start, len, port));
        lemma_with_task_inv(k, pid, k.mmap(start, len, port).0.tasks[pid]);
    }
}

/// `munmap` keeps the invariant.
pub proof fn lemma_munmap_inv(k: KernelView, start: usize, len: usize)
    requires
        k.inv(),
        k.current is Some,
    ensures
        k.munmap(start, len).0.inv(),
{
    Kernel::lemma_current(k);
    if !k.munmap_refused(start, len) {
        let pid = k.current->0;
        lemma_remove_starts_wf(
            k.tasks[pid].memory_set,
            spec_page_floor(start as int),
            spec_page_ceil(start + len),
        );
        lemma_with_task_inv(k, pid, k.munmap(start, len).0.tasks[pid]);
    }
}

/// The dispatch step keeps the invariant.
pub proof fn lemma_run_tasks_inv(k: KernelView, now_us: usize)
    requires
        k.inv(),
        k.current is None,
    ensures
        k.run_tasks(now_us).0.inv(),
{
    reveal(KernelView::inv);
    if k.ready_queue.len() > 0 {
        let k2 = k.run_tasks(now_us).0;
        lemma_stride_pick_bounds(queue_passes(k.ready_queue, k.tasks));
        let idx = fetch_index(k.ready_queue, k.tasks);
        let pid = k.ready_queue[idx];
        assert(k.live(pid));
        assert(k.same_identities(k2) && k.same_kinship(k2));
        lemma_frame_pids(k, k2);
        lemma_frame_stacks(k, k2);
        lemma_frame_tree(k, k2);
        lemma_run_tasks_queue(k, now_us);
        assert(k2.processor_inv()) by {
            assert forall|q: usize| #[trigger]
                k2.live(q) && k2.tasks[q].task_status == TaskStatus::Running implies k2.current
                == Some(q) by {
                assert(k.live(q));
            }
        }
        assert(k2.task_inv()) by {
            assert forall|q: usize| #[trigger] k2.live(q) implies k2.tasks[q].inv() by {
                assert(k.live(q));
                assert(k.tasks[q].inv());
            }
        }
    }
}

/// After the dispatch step the ready queue still holds the ready tasks, each
/// once.
proof fn lemma_run_tasks_queue(k: KernelView, now_us: usize)
    requires
        k.queue_inv(),
        k.ready_queue.len() > 0,
        0 <= fetch_index(k.ready_queue, k.tasks) < k.ready_queue.len(),
    ensures
        k.run_tasks(now_us).0.queue_inv(),
{
    let k2 = k.run_tasks(now_us).0;
    let idx = fetch_index(k.ready_queue, k.tasks);
    let pid = k.ready_queue[idx];
    assert forall|i: int| 0 <= i < k2.ready_queue.len() implies k2.live(
        #[trigger] k2.ready_queue[i],
    ) && k2.tasks[k2.ready_queue[i]].task_status == TaskStatus::Ready by {
        let i0 = if i < idx { i } else { i + 1 };
        assert(k2.ready_queue[i] == k.ready_queue[i0]);
        assert(k.live(k.ready_queue[i0]));
    }
    assert forall|q: usize| #[trigger]
        k2.live(q) && k2.tasks[q].task_status == TaskStatus::Ready implies k2.ready_queue.contains(
        q,
    ) by {
        assert(k.live(q));
        assert(k.ready_queue.contains(q));
        let j = choose|j: int| 0 <= j < k.ready_queue.len() && k.ready_queue[j] == q;
        let j2 = if j < idx { j } else { j - 1 };
        assert(k2.ready_queue[j2] == q);
    }
    assert forall|i: int, j: int|
        0 <= i < k2.ready_queue.len() && 0 <= j < k2.ready_queue.len() && i
            != j implies k2.ready_queue[i] != k2.ready_queue[j] by {
        let i0 = if i < idx { i } else { i + 1 };
        let j0 = if j < idx { j } else { j + 1 };
        assert(k2.ready_queue[i] == k.ready_queue[i0]);
        assert(k2.ready_queue[j] == k.ready_queue[j0]);
    }
}

/// Maps the pages of `start .. start + len` into the address space of the
/// running task, with the permissions that `port` asks for, and hands back 0; or
/// refuses with -1, and changes nothing, if `start` is not page aligned, `port`
/// is not one of 1 to 7, or one of the pages is mapped already. Where `start`
/// and `port` are in order, the range has to end within the address space.
#[verifier::loop_isolation(false)]
pub fn mmap(kernel: &mut Kernel, start: usize, len: usize, port: usize) -> (r: isize)
    requires
        old(kernel).wf(),
        old(kernel)@.current is Some,
        start as int % PAGE_SIZE as int == 0 && 1 <= port <= 7 ==> start + len <= usize::MAX,
    ensures
        final(kernel)@ == old(kernel)@.mmap(start, len, port).0,
        r == old(kernel)@.mmap(start, len, port).1,
        final(kernel).wf(),
{
    proof {
        Kernel::lemma_current(kernel@);
        lemma_mmap_inv(kernel@, start, len, port);
    }
    assert((port & !0x7usize != 0) <==> port > 7) by (bit_vector);
    assert(port <= 7 ==> ((port & 0x7usize == 0) <==> port == 0)) by (bit_vector);
    if (start % PAGE_SIZE != 0) || (port & !0x7 != 0) || (port & 0x7 == 0) {
        return -1;
    }
    let pid: usize = current_task(&kernel.processor).unwrap();
    let end: usize = start + len;
    let low: u8 = port as u8;
    let perm: u8 = (low << 1) | MAP_PERM_U;
    assert(perm == 2 * low + 16) by (bit_vector)
        requires
            perm == (low << 1) | 16u8,
            low <= 7,
    ;
    let start_vpn: usize = page_floor(start);
    let end_vpn: usize = page_ceil(end);
    let mut vpn: usize = start_vpn;
    while vpn < end_vpn
        invariant
            start_vpn <= vpn <= end_vpn || end_vpn < start_vpn,
            *kernel == *old(kernel),
            kernel@.live(pid),
            kernel@.tasks[pid].memory_set.range_free(start_vpn as int, vpn as int),
        decreases end_vpn - vpn,
    {
        if let Some(pte) = kernel.tasks.get(pid).inner.memory_set.translate(vpn) {
            if pte.is_valid() {
                return -1;
            }
        }
        vpn += 1;
    }
    kernel.tasks.get_mut(pid).inner.memory_set.insert_framed_area(start, end, perm);
    0
}

/// Unmaps, for each page of `start .. start + len`, the regions of the running
/// task's address space that start at that page, and hands back 0; or refuses
/// with -1, and changes nothing, if `start` is not page aligned or one of the
/// pages is not mapped. Where `start` is in order, the range has to end within
/// the address space.
#[verifier::loop_isolation(false)]
pub fn munmap(kernel: &mut Kernel, start: usize, len: usize) -> (r: isize)
    requires
        old(kernel).wf(),
        old(kernel)@.current is Some,
        start as int % PAGE_SIZE as int == 0 ==> start + len <= usize::MAX,
    ensures
        final(kernel)@ == old(kernel)@.munmap(start, len).0,
        r == old(kernel)@.munmap(start, len).1,
        final(kernel).wf(),
{
    proof {
        Kernel::lemma_current(kernel@);
        lemma_munmap_inv(kernel@, start, len);
    }
    if start % PAGE_SIZE != 0 {
        return -1;
    }
    let pid: usize = current_task(&kernel.processor).unwrap();
    let end: usize = start + len;
    let start_vpn: usize = page_floor(start);
    let end_vpn: usize = page_ceil(end);
    let mut vpn: usize = start_vpn;
    while vpn < end_vpn
        invariant
            start_vpn <= vpn <= end_vpn || end_vpn < start_vpn,
            *kernel == *old(kernel),
            kernel@.live(pid),
            kernel@.tasks[pid].memory_set.range_mapped(start_vpn as int, vpn as int),
        decreases end_vpn - vpn,
    {
        match kernel.tasks.get(pid).inner.memory_set.translate(vpn) {
            Some(pte) => {
                if pte.is_valid() == false {
                    return -1;
                }
            },
            None => {
                return -1;
            },
        }
        vpn += 1;
    }
    let ghost before = kernel@.tasks[pid].memory_set;
    let task = kernel.tasks.get_mut(pid);
    let mut vpn: usize = start_vpn;
    proof {
        lemma_without_starts_nothing(before.areas, start_vpn as int, start_vpn as int);
        if end_vpn < start_vpn {
            lemma_without_starts_nothing(before.areas, start_vpn as int, end_vpn as int);
        }
    }
    while vpn < end_vpn
        invariant
            start_vpn <= vpn <= end_vpn || end_vpn < start_vpn,
            end_vpn < start_vpn ==> vpn == start_vpn,
            task.inner.memory_set@.wf(),
            task.inner.memory_set@ == before.remove_starts(start_vpn as int, vpn as int),
            task.pid == old(kernel).tasks.slots@[pid as int]->0.pid,
            task.kernel_stack == old(kernel).tasks.slots@[pid as int]->0.kernel_stack,
            task.inner == (TaskControlBlockInner {
                memory_set: task.inner.memory_set,
                ..old(kernel).tasks.slots@[pid as int]->0.inner
            }),
        decreases end_vpn - vpn,
    {
        task.inner.memory_set.remove_area_with_start_vpn(vpn);
        proof {
            lemma_without_starts_twice(before.areas, start_vpn as int, vpn as int, vpn + 1);
        }
        vpn += 1;
    }
    0
}

/// One dispatch step of the idle control flow, at the timer reading `now_us`:
/// takes the task that the scheduler picks out of the ready queue, makes it the
/// running task, and hands back the switch from the idle control flow to it. A
/// task that is dispatched for the first time gets `now_us` as its start time.
/// With an empty ready queue nothing changes and there is no switch.
pub fn run_tasks(kernel: &mut Kernel, now_us: usize) -> (r: Option<Switch>)
    requires
        old(kernel).wf(),
        old(kernel)@.current is None,
    ensures
        final(kernel)@ == old(kernel)@.run_tasks(now_us).0,
        r == old(kernel)@.run_tasks(now_us).1,
        final(kernel).wf(),
{
    proof {
        Kernel::lemma_queue(kernel@);
        lemma_run_tasks_inv(kernel@, now_us);
    }
    if let Some(task) = fetch_task(&mut kernel.task_manager, &mut kernel.tasks) {
        let ghost fetched = kernel@;
        let inner = kernel.tasks.get_mut(task).inner_exclusive_access();
        inner.task_status = TaskStatus::Running;
        if inner.start_time == 0 {
            inner.start_time = now_us;
        }
        kernel.processor.current = Some(task);
        assert(kernel@.tasks == fetched.tasks.insert(
            task,
            TaskView {
                task_status: TaskStatus::Running,
                start_time: if fetched.tasks[task].start_time == 0 {
                    now_us
                } else {
                    fetched.tasks[task].start_time
                },
                ..fetched.tasks[task]
            },
        ));
        assert(kernel@.tasks =~= old(kernel)@.run_tasks(now_us).0.tasks);
        Some(Switch { from: ContextSlot::Idle, to: ContextSlot::Task(task) })
    } else {
        None
    }
}

} // verus!
