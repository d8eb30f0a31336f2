//! What holds of every state that meets the invariant, and of system calls taken
//! together.

use vstd::prelude::*;
use crate::config::{BIG_STRIDE, MAX_PID, TRAMPOLINE, lemma_layout};
use crate::mm::{
    MAP_PERM_R,
    MAP_PERM_U,
    MAP_PERM_W,
    MAP_PERM_X,
    MapArea,
    MemorySetView,
    lemma_insert_wf,
    lemma_remove_starts_free,
    lemma_remove_starts_unmaps,
    lemma_without_starts,
    lemma_without_starts_nothing,
    spec_page_ceil,
    spec_page_floor,
    starts_in,
};
use crate::syscall::SYSCALL_WAITPID;
use crate::syscall::process::{
    child_matches,
    first_zombie,
    lemma_first_zombie,
    lemma_first_zombie_unique,
    lemma_fork_creatable,
    lemma_waitpid_inv,
};
use crate::task::context::TaskContextView;
use crate::task::kernel::{
    INITPROC_PID,
    Kernel,
    KernelView,
    lemma_create_inv,
    lemma_next_pid,
    lemma_stack_slot_taken,
};
use crate::task::manager::{fetch_index, lemma_stride_pick_bounds, queue_passes};
use crate::task::pid::{
    lemma_stack_area,
    lemma_stack_areas_apart,
    spec_kernel_stack_position,
    stack_area,
    stack_owner,
};
use crate::task::processor::{
    lemma_mmap_inv,
    lemma_run_tasks_inv,
    lemma_with_task_inv,
    mmap_area,
    stored_priority,
};
use crate::task::switch::{ContextSlot, Switch};
use crate::task::task::{ElfImage, TaskStatus};
use crate::task::{lemma_children, lemma_exit_inv};
use crate::trap::{REG_SP, TrapContextView};

verus! {

/// At most one task is running, and it is the processor's current task. While
/// the processor has no current task, as in its idle control flow, no task is
/// running.
pub proof fn lemma_one_running(k: KernelView)
    requires
        k.inv(),
    ensures
        forall|p: usize, q: usize|
            k.live(p) && k.live(q) && k.tasks[p].task_status == TaskStatus::Running
                && k.tasks[q].task_status == TaskStatus::Running ==> p == q,
        forall|p: usize|
            k.live(p) && k.tasks[p].task_status == TaskStatus::Running ==> k.current == Some(p),
        k.current is None ==> forall|p: usize|
            k.live(p) ==> k.tasks[p].task_status != TaskStatus::Running,
        k.current matches Some(p) ==> k.live(p) && k.tasks[p].task_status == TaskStatus::Running,
{
    reveal(KernelView::inv);
}

/// Every ready task is in the ready queue exactly once, and the ready queue
/// holds nothing but ready tasks.
pub proof fn lemma_ready_once(k: KernelView)
    requires
        k.inv(),
    ensures
        forall|p: usize|
            k.live(p) && k.tasks[p].task_status == TaskStatus::Ready ==> exists|i: int|
                0 <= i < k.ready_queue.len() && #[trigger] k.ready_queue[i] == p && forall|j: int|
                    0 <= j < k.ready_queue.len() && k.ready_queue[j] == p ==> j == i,
        forall|i: int|
            0 <= i < k.ready_queue.len() ==> k.live(#[trigger] k.ready_queue[i])
                && k.tasks[k.ready_queue[i]].task_status == TaskStatus::Ready,
{
    reveal(KernelView::inv);
    assert forall|p: usize|
        k.live(p) && k.tasks[p].task_status == TaskStatus::Ready implies exists|i: int|
        0 <= i < k.ready_queue.len() && #[trigger] k.ready_queue[i] == p && forall|j: int|
            0 <= j < k.ready_queue.len() && k.ready_queue[j] == p ==> j == i by {
        assert(k.ready_queue.contains(p));
        let i = choose|i: int| 0 <= i < k.ready_queue.len() && k.ready_queue[i] == p;
        assert(k.ready_queue[i] == p);
    }
}

/// The process identifiers whose kernel stack is mapped.
pub open spec fn mapped_stacks(k: KernelView) -> Set<usize> {
    Set::new(|pid: usize| pid <= MAX_PID && k.stack_mapped(pid))
}

/// The process identifiers that are handed out and not handed back.
pub open spec fn live_pids(k: KernelView) -> Set<usize> {
    Set::new(|pid: usize| k.pid_live(pid))
}

/// There are as many task control blocks as process identifiers in use as
/// mapped kernel stacks: a task has a control block if and only if its process
/// identifier is in use, and if and only if its kernel stack is mapped; their
/// number is finite, and it is the number of regions in the kernel stack space.
pub proof fn lemma_blocks_pids_stacks(k: KernelView)
    requires
        k.inv(),
    ensures
        k.tasks.dom() == live_pids(k),
        k.tasks.dom() == mapped_stacks(k),
        k.tasks.dom().finite(),
        k.tasks.dom().len() == live_pids(k).len(),
        k.tasks.dom().len() == mapped_stacks(k).len(),
        k.tasks.dom().len() == k.kernel_space.areas.len(),
{
    reveal(KernelView::inv);
    let areas = k.kernel_space.areas;
    let owner = |area: MapArea| stack_owner(area);
    assert forall|i: int, j: int| 0 <= i < areas.len() && 0 <= j < areas.len() && i != j implies
        areas[i] != areas[j] by {
        let p = stack_owner(areas[i]);
        assert(k.live(p));
        assert(k.pid_live(p));
        lemma_stack_area(p as int);
        assert(areas[i].disjoint(areas[j]));
        assert(areas[i].contains(areas[i].start_vpn as int));
    }
    areas.unique_seq_to_set();
    let stacks = areas.to_set();
    assert(stacks.finite()) by {
        vstd::seq_lib::seq_to_set_is_finite(areas);
    }
    assert(stacks.map(owner) =~= k.tasks.dom()) by {
        assert forall|p: usize| stacks.map(owner).contains(p) == k.tasks.dom().contains(p) by {
            if stacks.map(owner).contains(p) {
                let a = choose|a: MapArea| stacks.contains(a) && owner(a) == p;
                let i = choose|i: int| 0 <= i < areas.len() && areas[i] == a;
                assert(k.live(stack_owner(areas[i])));
            }
            if k.live(p) {
                assert(k.stack_mapped(p));
                assert(k.pid_live(p));
                lemma_stack_area(p as int);
                let a = stack_area(p as int);
                assert(stacks.contains(a));
                assert(owner(a) == p);
            }
        }
    }
    assert(vstd::relations::injective_on(owner, stacks)) by {
        assert forall|a: MapArea, b: MapArea|
            stacks.contains(a) && stacks.contains(b) && #[trigger] owner(a) == #[trigger] owner(
                b,
            ) implies a == b by {
            let i = choose|i: int| 0 <= i < areas.len() && areas[i] == a;
            let j = choose|j: int| 0 <= j < areas.len() && areas[j] == b;
            assert(areas[i] == stack_area(
                stack_owner(areas[i]) as int,
            ));
            assert(areas[j] == stack_area(
                stack_owner(areas[j]) as int,
            ));
        }
    }
    vstd::set_lib::lemma_map_size(stacks, k.tasks.dom(), owner);
    assert(k.tasks.dom() =~= live_pids(k)) by {
        assert forall|p: usize| k.tasks.dom().contains(p) == live_pids(k).contains(p) by {
            assert(k.live(p) <==> k.pid_live(p));
        }
    }
    assert(k.tasks.dom() =~= mapped_stacks(k)) by {
        assert forall|p: usize| k.tasks.dom().contains(p) == mapped_stacks(k).contains(p) by {
            if p <= MAX_PID && k.stack_mapped(p) {
                let i = choose|i: int|
                    0 <= i < areas.len() && areas[i] == stack_area(p as int);
                let q = stack_owner(areas[i]);
                assert(k.live(q));
                assert(k.pid_live(q));
                if p != q {
                    lemma_stack_areas_apart(p as int, q as int);
                }
            }
            if k.live(p) {
                assert(k.stack_mapped(p));
                assert(k.pid_live(p));
            }
        }
    }
}

/// Every task but the initial process has a parent that is live and lists the
/// task among its children exactly once. The initial process has no parent.
pub proof fn lemma_parent_lists_child(k: KernelView, pid: usize)
    requires
        k.inv(),
        k.live(pid),
    ensures
        pid == INITPROC_PID <==> k.tasks[pid].parent is None,
        pid != INITPROC_PID ==> ({
            let parent = k.tasks[pid].parent->0;
            &&& k.live(parent)
            &&& exists|i: int|
                0 <= i < k.tasks[parent].children.len() && #[trigger] k.tasks[parent].children[i]
                    == pid && forall|j: int|
                    0 <= j < k.tasks[parent].children.len() && k.tasks[parent].children[j] == pid
                        ==> j == i
        }),
        k.live(INITPROC_PID),
{
    reveal(KernelView::inv);
    assert(k.pid_live(pid));
    if pid != INITPROC_PID {
        let parent = k.tasks[pid].parent->0;
        assert(k.live(parent));
        assert(k.tasks[parent].children.contains(pid));
        let i = choose|i: int|
            0 <= i < k.tasks[parent].children.len() && k.tasks[parent].children[i] == pid;
        assert(k.tasks[parent].children[i] == pid);
    }
}

/// After a task exits, each of its children has the initial process as its
/// parent and is among the children of the initial process.
pub proof fn lemma_exit_reparents(k: KernelView, exit_code: i32)
    requires
        k.inv(),
        k.current is Some,
        k.current != Some(INITPROC_PID),
    ensures
        forall|i: int|
            0 <= i < k.tasks[k.current->0].children.len() ==> ({
                let child = #[trigger] k.tasks[k.current->0].children[i];
                let after = k.exit(exit_code).0;
                &&& after.live(child)
                &&& after.tasks[child].parent == Some(INITPROC_PID)
                &&& after.tasks[INITPROC_PID].children.contains(child)
            }),
        k.exit(exit_code).0.tasks[k.current->0].task_status == TaskStatus::Zombie,
        k.exit(exit_code).0.tasks[k.current->0].exit_code == exit_code,
        k.exit(exit_code).0.inv(),
{
    let pid = k.current->0;
    let kids = k.tasks[pid].children;
    let init_kids = k.tasks[INITPROC_PID].children;
    let after = k.exit(exit_code).0;
    Kernel::lemma_current(k);
    lemma_children(k, pid);
    lemma_exit_inv(k, exit_code);
    assert(kids.subrange(0, kids.len() as int) =~= kids);
    assert forall|i: int| 0 <= i < kids.len() implies after.live(#[trigger] kids[i])
        && after.tasks[kids[i]].parent == Some(INITPROC_PID)
        && after.tasks[INITPROC_PID].children.contains(kids[i]) by {
        assert(kids.contains(kids[i]));
        assert((init_kids + kids)[init_kids.len() + i] == kids[i]);
    }
}

/// The process identifier of a task that was reaped is the one that the next new
/// task gets.
pub proof fn lemma_reaped_pid_comes_back(k: KernelView, target: int)
    requires
        k.inv(),
        k.current is Some,
        k.waitpid(target).1 >= 0,
    ensures
        k.waitpid(target).0.can_create(),
        k.waitpid(target).0.next_pid() == k.waitpid(target).1,
        !k.waitpid(target).0.live(k.waitpid(target).0.next_pid()),
{
    let after = k.waitpid(target).0;
    lemma_waitpid_inv(k, target);
    assert(after.pids_inv()) by {
        reveal(KernelView::inv);
    }
    lemma_next_pid(after);
}

/// A task that waits for a child that was forked and did not exit yet is told
/// -2, and nothing changes.
pub proof fn lemma_wait_before_exit(k: KernelView, token: usize, trap_cx_ppn: usize)
    requires
        k.inv(),
        k.current is Some,
        k.can_create(),
    ensures
        ({
            let forked = k.fork(token, trap_cx_ppn);
            &&& forked.0.waitpid(forked.1) == (forked.0, -2int, None::<i32>)
        }),
{
    let forked = k.fork(token, trap_cx_ppn);
    let k1 = forked.0;
    let child = k.next_pid();
    let parent = k.current->0;
    Kernel::lemma_current(k);
    lemma_fork_creatable(k, token, trap_cx_ppn);
    assert(!k.live(child)) by {
        assert(k.pids_inv()) by {
            reveal(KernelView::inv);
        }
        lemma_next_pid(k);
    }
    lemma_children(k, parent);
    let kids = k1.tasks[parent].children;
    assert(kids == k.tasks[parent].children.push(child));
    let last = kids.len() - 1;
    assert(kids[last] == child);
    assert(child_matches(child as int, kids[last]));
    assert forall|j: int| 0 <= j < kids.len() implies !(child_matches(
        child as int,
        #[trigger] kids[j],
    ) && k1.tasks[kids[j]].task_status == TaskStatus::Zombie) by {
        if j < last {
            assert(k.live(k.tasks[parent].children[j]));
        }
    }
    lemma_first_zombie_unique(kids, k1.tasks, child as int, kids.len() as int);
}

/// A parent that waits for a child that has exited is told the process
/// identifier of the child and gets the exit code that the child exited with:
/// this holds in every state that meets the invariant, in which the parent runs,
/// and in which the child is as its exit left it.
pub proof fn lemma_wait_after_exit(k: KernelView, exit_code: i32, later: KernelView)
    requires
        k.inv(),
        k.current is Some,
        k.current != Some(INITPROC_PID),
        later.inv(),
        later.live(k.current->0),
        later.tasks[k.current->0] == k.exit(exit_code).0.tasks[k.current->0],
        later.current == k.tasks[k.current->0].parent,
    ensures
        later.waitpid(k.current->0 as int).1 == k.current->0,
        later.waitpid(k.current->0 as int).2 == Some(exit_code),
        !later.waitpid(k.current->0 as int).0.live(k.current->0),
{
    let child = k.current->0;
    Kernel::lemma_current(k);
    lemma_parent_lists_child(k, child);
    let parent = k.tasks[child].parent->0;
    lemma_parent_lists_child(later, child);
    Kernel::lemma_current(later);
    let kids = later.tasks[parent].children;
    let i = choose|i: int| 0 <= i < kids.len() && kids[i] == child;
    lemma_children(later, parent);
    assert(exists|j: int| 0 <= j < kids.len() && child_matches(child as int, #[trigger] kids[j]))
        by {
        assert(child_matches(child as int, kids[i]));
    }
    assert forall|j: int| 0 <= j < i implies !(child_matches(child as int, #[trigger] kids[j])
        && later.tasks[kids[j]].task_status == TaskStatus::Zombie) by {
        assert(kids[j] != kids[i]);
    }
    lemma_first_zombie_unique(kids, later.tasks, child as int, i);
}

/// Whatever priority the running task asks for, it is told -1 exactly if it
/// asked for less than 2, in which case nothing changes; and its priority is at
/// least 2 afterwards, as the invariant is kept: the scheduler never divides by
/// zero.
pub proof fn lemma_priority_any(k: KernelView, prio: int)
    requires
        k.inv(),
        k.current is Some,
    ensures
        k.set_priority(prio).1 == -1 <==> prio < 2,
        prio < 2 ==> k.set_priority(prio).0 == k,
        prio >= 2 ==> k.set_priority(prio).1 == prio,
        k.set_priority(prio).0.tasks[k.current->0].priority >= 2,
        k.set_priority(prio).0.inv(),
{
    Kernel::lemma_current(k);
    if prio >= 2 {
        lemma_with_task_inv(k, k.current->0, k.set_priority(prio).0.tasks[k.current->0]);
    }
}

/// A priority of at least 2 is set, as far as it fits into eight bits, and
/// handed back, and it shows when the task is picked next: its pass then moves
/// on by the stride budget divided by the priority that was set.
pub proof fn lemma_priority_shows(k: KernelView, prio: int, later: KernelView, now_us: usize)
    requires
        k.inv(),
        k.current is Some,
        2 <= prio,
        later.inv(),
        later.current is None,
        later.ready_queue.len() > 0,
        later.ready_queue[fetch_index(later.ready_queue, later.tasks)] == k.current->0,
        later.tasks[k.current->0].priority == k.set_priority(prio).0.tasks[k.current->0].priority,
    ensures
        k.set_priority(prio).1 == prio,
        k.set_priority(prio).0.tasks[k.current->0].priority == stored_priority(prio),
        prio <= u8::MAX ==> stored_priority(prio) == prio,
        prio > u8::MAX ==> stored_priority(prio) == u8::MAX,
        later.run_tasks(now_us).0.tasks[k.current->0].pass
            == later.tasks[k.current->0].pass.wrapping_add(
            (BIG_STRIDE as int / stored_priority(prio) as int) as usize,
        ),
        later.run_tasks(now_us).0.current == k.current,
{
    Kernel::lemma_current(k);
    lemma_stride_pick_bounds(queue_passes(later.ready_queue, later.tasks));
}

/// After the running task, which is not the initial process, has exited, the
/// processor has no current task and no task is running; the task is a zombie
/// and is not in the ready queue, which is as it was; and the switch goes to
/// the idle control flow and saves the registers in the throw-away slot, not
/// in the control block of the task.
pub proof fn lemma_exit_leaves_idle(k: KernelView, exit_code: i32)
    requires
        k.inv(),
        k.current is Some,
        k.current != Some(INITPROC_PID),
    ensures
        k.exit(exit_code).0.current is None,
        forall|p: usize|
            k.exit(exit_code).0.live(p) ==> k.exit(exit_code).0.tasks[p].task_status
                != TaskStatus::Running,
        k.exit(exit_code).0.live(k.current->0),
        k.exit(exit_code).0.tasks[k.current->0].task_status == TaskStatus::Zombie,
        k.exit(exit_code).0.ready_queue == k.ready_queue,
        !k.exit(exit_code).0.ready_queue.contains(k.current->0),
        k.exit(exit_code).1 == (Switch { from: ContextSlot::Unused, to: ContextSlot::Idle }),
{
    let after = k.exit(exit_code).0;
    let pid = k.current->0;
    Kernel::lemma_current(k);
    lemma_exit_inv(k, exit_code);
    lemma_one_running(after);
    lemma_ready_once(after);
    assert(after.live(pid));
    if after.ready_queue.contains(pid) {
        let i = choose|i: int| 0 <= i < after.ready_queue.len() && after.ready_queue[i] == pid;
        assert(after.tasks[after.ready_queue[i]].task_status == TaskStatus::Ready);
    }
}

/// Mapping a range of pages and then unmapping the same range succeeds twice
/// and leaves every page as it was before, mapped with the same permissions or
/// not mapped; no page of the range is mapped afterwards. This holds whenever
/// the request can be granted. The regions themselves are as before too, and
/// with them the whole state, if the range holds a page and no region started
/// within it.
pub proof fn lemma_mmap_munmap(k: KernelView, start: usize, len: usize, port: usize)
    requires
        k.inv(),
        k.current is Some,
        start + len <= usize::MAX,
        !k.mmap_refused(start, len, port),
    ensures
        k.mmap(start, len, port).1 == 0,
        k.mmap(start, len, port).0.munmap(start, len).1 == 0,
        forall|vpn: int|
            k.mmap(start, len, port).0.munmap(start, len).0.tasks[k.current->0].memory_set.translation(
                vpn,
            ) == k.tasks[k.current->0].memory_set.translation(vpn),
        k.mmap(start, len, port).0.munmap(start, len).0.tasks[k.current->0].memory_set.range_free(
            mmap_area(start, len, port).start_vpn as int,
            mmap_area(start, len, port).end_vpn as int,
        ),
        mmap_area(start, len, port).start_vpn < mmap_area(start, len, port).end_vpn
            && !k.tasks[k.current->0].memory_set.starts_within(
            mmap_area(start, len, port).start_vpn as int,
            mmap_area(start, len, port).end_vpn as int,
        ) ==> k.mmap(start, len, port).0.munmap(start, len).0 == k,
{
    let pid = k.current->0;
    let area = mmap_area(start, len, port);
    let before = k.tasks[pid].memory_set;
    let k1 = k.mmap(start, len, port).0;
    let mapped = k1.tasks[pid].memory_set;
    Kernel::lemma_current(k);
    let lo = area.start_vpn as int;
    let hi = area.end_vpn as int;
    assert(lo == spec_page_floor(start as int));
    assert(hi == spec_page_ceil(start + len));
    assert(mapped.areas == before.areas.push(area));
    let n = before.areas.len() as int;
    assert forall|vpn: int| lo <= vpn < hi implies mapped.mapped(vpn) by {
        assert(mapped.areas[n].contains(vpn));
    }
    assert(!k1.munmap_refused(start, len));
    let k2 = k1.munmap(start, len).0;
    let after = k2.tasks[pid].memory_set;
    assert(after == mapped.remove_starts(lo, hi));
    assert(mapped.areas.drop_last() =~= before.areas);
    assert(mapped.areas.last() == area);
    if lo < hi {
        assert(starts_in(area, lo, hi));
        assert(after == before.remove_starts(lo, hi));
        lemma_remove_starts_free(before, lo, hi);
        if !before.starts_within(lo, hi) {
            lemma_without_starts_nothing(before.areas, lo, hi);
            assert(after == before);
            assert(k2.tasks =~= k.tasks);
        }
    } else {
        assert(!starts_in(area, lo, hi));
        lemma_without_starts_nothing(before.areas, lo, hi);
        assert(after == mapped);
        assert forall|vpn: int| after.translation(vpn) == before.translation(vpn) by {
            lemma_translation_push_empty(before, area, vpn);
        }
    }
    assert forall|vpn: int| lo <= vpn < hi implies !after.mapped(vpn) by {
        assert(after.translation(vpn) == before.translation(vpn));
        assert(!before.mapped(vpn));
    }
}

/// After a range of pages was unmapped, every page is unmapped whose region
/// started within the range, and every other page is as it was before, mapped
/// with the same permissions or not mapped.
pub proof fn lemma_munmap_unmaps(k: KernelView, start: usize, len: usize)
    requires
        k.inv(),
        k.current is Some,
        !k.munmap_refused(start, len),
    ensures
        k.munmap(start, len).1 == 0,
        forall|vpn: int, i: int|
            0 <= i < k.tasks[k.current->0].memory_set.areas.len() && #[trigger]
            k.tasks[k.current->0].memory_set.areas[i].contains(vpn) ==> if starts_in(
                k.tasks[k.current->0].memory_set.areas[i],
                spec_page_floor(start as int),
                spec_page_ceil(start + len),
            ) {
                !k.munmap(start, len).0.tasks[k.current->0].memory_set.mapped(vpn)
            } else {
                k.munmap(start, len).0.tasks[k.current->0].memory_set.translation(vpn)
                    == k.tasks[k.current->0].memory_set.translation(vpn)
            },
        forall|vpn: int|
            !k.tasks[k.current->0].memory_set.mapped(vpn) ==> !k.munmap(
                start,
                len,
            ).0.tasks[k.current->0].memory_set.mapped(vpn),
{
    let pid = k.current->0;
    let before = k.tasks[pid].memory_set;
    let lo = spec_page_floor(start as int);
    let hi = spec_page_ceil(start + len);
    let after = k.munmap(start, len).0.tasks[pid].memory_set;
    Kernel::lemma_current(k);
    assert(after == before.remove_starts(lo, hi));
    lemma_without_starts(before.areas, lo, hi);
    assert forall|vpn: int, i: int|
        0 <= i < before.areas.len() && #[trigger] before.areas[i].contains(vpn) implies if starts_in(
        before.areas[i],
        lo,
        hi,
    ) {
        !after.mapped(vpn)
    } else {
        after.translation(vpn) == before.translation(vpn)
    } by {
        if starts_in(before.areas[i], lo, hi) {
            lemma_remove_starts_unmaps(before, lo, hi, i, vpn);
        } else {
            lemma_kept_translation(before, lo, hi, i, vpn);
        }
    }
    assert forall|vpn: int| !before.mapped(vpn) implies !after.mapped(vpn) by {
        if after.mapped(vpn) {
            let a = choose|a: int|
                0 <= a < after.areas.len() && (#[trigger] after.areas[a]).contains(vpn);
            let j = choose|j: int| 0 <= j < before.areas.len() && before.areas[j] == after.areas[a];
            assert(before.areas[j].contains(vpn));
        }
    }
}

/// A page that a region holds which does not start in the range is mapped as
/// before when the regions that start in the range are removed.
proof fn lemma_kept_translation(ms: MemorySetView, start: int, end: int, i: int, vpn: int)
    requires
        ms.wf(),
        0 <= i < ms.areas.len(),
        !starts_in(ms.areas[i], start, end),
        ms.areas[i].contains(vpn),
    ensures
        ms.remove_starts(start, end).translation(vpn) == ms.translation(vpn),
{
    let less = ms.remove_starts(start, end);
    lemma_without_starts(ms.areas, start, end);
    assert(less.areas.contains(ms.areas[i]));
    let a = choose|a: int| 0 <= a < less.areas.len() && less.areas[a] == ms.areas[i];
    assert(less.areas[a].contains(vpn));
    let a2 = choose|a2: int|
        0 <= a2 < less.areas.len() && (#[trigger] less.areas[a2]).contains(vpn);
    let j2 = choose|j2: int| 0 <= j2 < ms.areas.len() && ms.areas[j2] == less.areas[a2];
    let j = choose|j: int| 0 <= j < ms.areas.len() && (#[trigger] ms.areas[j]).contains(vpn);
    if j2 != j {
        assert(ms.areas[j2].disjoint(ms.areas[j]));
    }
}

/// A region without pages changes the translation of no page.
proof fn lemma_translation_push_empty(ms: MemorySetView, area: MapArea, vpn: int)
    requires
        ms.wf(),
        !area.contains(vpn),
    ensures
        ms.insert(area).translation(vpn) == ms.translation(vpn),
{
    let more = ms.insert(area);
    let n = ms.areas.len() as int;
    if ms.mapped(vpn) {
        let i = choose|i: int| 0 <= i < ms.areas.len() && (#[trigger] ms.areas[i]).contains(vpn);
        assert(more.areas[i].contains(vpn));
        let j = choose|j: int|
            0 <= j < more.areas.len() && (#[trigger] more.areas[j]).contains(vpn);
        assert(j < n);
        if i != j {
            assert(ms.areas[i].disjoint(ms.areas[j]));
        }
    } else {
        if more.mapped(vpn) {
            let j = choose|j: int|
                0 <= j < more.areas.len() && (#[trigger] more.areas[j]).contains(vpn);
            if j < n {
                assert(ms.areas[j].contains(vpn));
            }
        }
    }
}

/// A request to map that is granted maps exactly the pages of its range, each
/// for user mode and readable, writable and executable as the lowest three bits
/// of `port` say. Every other page is as it was before, mapped with the same
/// permissions or not mapped, and so is every other task.
pub proof fn lemma_mmap_maps(k: KernelView, start: usize, len: usize, port: usize)
    requires
        k.inv(),
        k.current is Some,
        start + len <= usize::MAX,
        !k.mmap_refused(start, len, port),
    ensures
        k.mmap(start, len, port).1 == 0,
        k.mmap(start, len, port).0.inv(),
        forall|vpn: int|
            k.mmap(start, len, port).0.tasks[k.current->0].memory_set.translation(vpn) == if spec_page_floor(
                start as int,
            ) <= vpn < spec_page_ceil(start + len) {
                Some(mmap_area(start, len, port).perm)
            } else {
                k.tasks[k.current->0].memory_set.translation(vpn)
            },
        mmap_area(start, len, port).perm & MAP_PERM_U != 0,
        mmap_area(start, len, port).perm & MAP_PERM_R != 0 <==> port & 1 != 0,
        mmap_area(start, len, port).perm & MAP_PERM_W != 0 <==> port & 2 != 0,
        mmap_area(start, len, port).perm & MAP_PERM_X != 0 <==> port & 4 != 0,
        forall|q: usize|
            q != k.current->0 ==> k.mmap(start, len, port).0.live(q) == k.live(q) && k.mmap(
                start,
                len,
                port,
            ).0.tasks[q] == k.tasks[q],
{
    let pid = k.current->0;
    let area = mmap_area(start, len, port);
    let before = k.tasks[pid].memory_set;
    let after = k.mmap(start, len, port).0.tasks[pid].memory_set;
    Kernel::lemma_current(k);
    lemma_mmap_inv(k, start, len, port);
    lemma_insert_wf(before, area);
    let n = before.areas.len() as int;
    assert(after.areas[n] == area);
    assert(area.start_vpn == spec_page_floor(start as int));
    assert(area.end_vpn == spec_page_ceil(start + len));
    assert forall|vpn: int|
        after.translation(vpn) == if area.contains(vpn) {
            Some(area.perm)
        } else {
            before.translation(vpn)
        } by {
        if area.contains(vpn) {
            assert(after.areas[n].contains(vpn));
            let j = choose|j: int|
                0 <= j < after.areas.len() && (#[trigger] after.areas[j]).contains(vpn);
            if j != n {
                assert(after.areas[j].disjoint(after.areas[n]));
            }
        } else {
            lemma_translation_push_empty(before, area, vpn);
        }
    }
    let perm = area.perm;
    assert(perm & 16 != 0 && (perm & 2 != 0 <==> port & 1 != 0) && (perm & 4 != 0 <==> port & 2
        != 0) && (perm & 8 != 0 <==> port & 4 != 0)) by (bit_vector)
        requires
            1 <= port <= 7,
            perm == (2 * port + 16) as u8,
    ;
}

/// After a fork there is one task, one process identifier in use and one kernel
/// stack more than before: those of the child, whose identifier was not in use.
/// The child has the forking task as its parent and is the last of its
/// children, and no other task lists it. Its kernel stack pointer and its task
/// context point to the top of its own kernel stack.
pub proof fn lemma_fork_grows(k: KernelView, token: usize, trap_cx_ppn: usize)
    requires
        k.inv(),
        k.current is Some,
        k.can_create(),
    ensures
        ({
            let after = k.fork(token, trap_cx_ppn).0;
            let child = k.next_pid();
            let parent = k.current->0;
            let top = spec_kernel_stack_position(child as int).1;
            &&& after.inv()
            &&& k.fork(token, trap_cx_ppn).1 == child
            &&& !k.live(child)
            &&& after.live(child)
            &&& forall|q: usize| q != child ==> after.live(q) == k.live(q)
            &&& after.tasks.dom().len() == k.tasks.dom().len() + 1
            &&& live_pids(after).len() == live_pids(k).len() + 1
            &&& mapped_stacks(after).len() == mapped_stacks(k).len() + 1
            &&& after.kernel_space.areas == k.kernel_space.areas.push(stack_area(child as int))
            &&& after.tasks[child].parent == Some(parent)
            &&& after.tasks[parent].children == k.tasks[parent].children.push(child)
            &&& forall|q: usize|
                after.live(q) && q != parent ==> !after.tasks[q].children.contains(child)
            &&& after.tasks[child].trap_cx.kernel_sp == top
            &&& after.tasks[child].task_cx.sp == top
            &&& after.tasks[child].task_status == TaskStatus::Ready
            &&& after.ready_queue == k.ready_queue.push(child)
        }),
{
    let after = k.fork(token, trap_cx_ppn).0;
    let child = k.next_pid();
    let parent = k.current->0;
    Kernel::lemma_current(k);
    lemma_fork_creatable(k, token, trap_cx_ppn);
    assert(k.pids_inv()) by {
        reveal(KernelView::inv);
    }
    lemma_next_pid(k);
    lemma_stack_area(child as int);
    lemma_blocks_pids_stacks(k);
    lemma_blocks_pids_stacks(after);
    assert(after.live(child));
    assert forall|q: usize| after.live(q) && q != parent implies !after.tasks[q].children.contains(
        child,
    ) by {
        if after.tasks[q].children.contains(child) {
            let i = choose|i: int|
                0 <= i < after.tasks[q].children.len() && after.tasks[q].children[i] == child;
            lemma_children(after, q);
            assert(after.tasks[after.tasks[q].children[i]].parent == Some(q));
        }
    }
}

/// The initial process, created from a program and dispatched, is the running
/// task with the process identifier 0. Its trap frame starts the program at its
/// entry point on its user stack, with the kernel stack of the task for the
/// next trap, and its task context returns through the trap return routine on
/// that kernel stack.
pub proof fn lemma_boot(k: KernelView, elf: ElfImage, now_us: usize)
    requires
        k.inv(),
        k.pid_current == 0,
        elf.memory_set@.wf(),
    ensures
        ({
            let booted = k.create(k.initproc(elf));
            let run = booted.run_tasks(now_us);
            let task = run.0.tasks[INITPROC_PID];
            &&& booted.inv()
            &&& booted.ready_queue == seq![INITPROC_PID]
            &&& run.0.inv()
            &&& run.1 == Some(Switch { from: ContextSlot::Idle, to: ContextSlot::Task(INITPROC_PID) })
            &&& run.0.current == Some(INITPROC_PID)
            &&& task.pid == INITPROC_PID
            &&& task.task_status == TaskStatus::Running
            &&& task.parent is None
            &&& task.trap_cx == TrapContextView::app_init(
                elf.entry_point,
                elf.user_sp,
                k.kernel_space.token,
                TRAMPOLINE,
                k.trap_entry.trap_handler,
            )
            &&& task.trap_cx.sepc == elf.entry_point
            &&& task.trap_cx.x[REG_SP as int] == elf.user_sp
            &&& task.task_cx == TaskContextView::trap_return(TRAMPOLINE, k.trap_entry.trap_return)
            &&& task.memory_set == elf.memory_set@
        }),
{
    let booted = k.create(k.initproc(elf));
    assert(k.pids_inv() && k.pid_recycled.len() == 0 && k.ready_queue.len() == 0 && k.current is None)
        by {
        reveal(KernelView::inv);
        if k.pid_recycled.len() > 0 {
            assert(k.pid_recycled[0] < k.pid_current);
        }
        if k.ready_queue.len() > 0 {
            assert(k.live(k.ready_queue[0]));
            assert(k.pid_live(k.ready_queue[0]));
        }
        if k.current is Some {
            assert(k.pid_live(k.current->0));
        }
    }
    lemma_layout();
    lemma_next_pid(k);
    lemma_create_inv(k, k.initproc(elf));
    assert(booted.ready_queue =~= seq![INITPROC_PID]);
    lemma_stride_pick_bounds(queue_passes(booted.ready_queue, booted.tasks));
    lemma_run_tasks_inv(booted, now_us);
    assert(spec_kernel_stack_position(0).1 == TRAMPOLINE);
}

/// A task that waits for a child of its own that is a zombie is told the
/// process identifier of the child and gets its exit code; and so it is when the
/// wait comes as a system call, which is counted first.
pub proof fn lemma_wait_for_zombie(k: KernelView, child: usize)
    requires
        k.inv(),
        k.current is Some,
        k.live(child),
        k.tasks[child].parent == k.current,
        k.tasks[child].task_status == TaskStatus::Zombie,
        k.tasks[k.current->0].syscall_times[SYSCALL_WAITPID as int] < u32::MAX,
    ensures
        k.waitpid(child as int).1 == child,
        k.waitpid(child as int).2 == Some(k.tasks[child].exit_code),
        k.update_syscall_times(SYSCALL_WAITPID).waitpid(child as int).1 == child,
        k.update_syscall_times(SYSCALL_WAITPID).waitpid(child as int).2 == Some(
            k.tasks[child].exit_code,
        ),
{
    let counted = k.update_syscall_times(SYSCALL_WAITPID);
    Kernel::lemma_current(k);
    lemma_with_task_inv(k, k.current->0, counted.tasks[k.current->0]);
    lemma_wait_here(k, child);
    lemma_wait_here(counted, child);
}

proof fn lemma_wait_here(k: KernelView, child: usize)
    requires
        k.inv(),
        k.current is Some,
        k.live(child),
        k.tasks[child].parent == k.current,
        k.tasks[child].task_status == TaskStatus::Zombie,
    ensures
        k.waitpid(child as int).1 == child,
        k.waitpid(child as int).2 == Some(k.tasks[child].exit_code),
{
    let parent = k.current->0;
    Kernel::lemma_current(k);
    lemma_parent_lists_child(k, child);
    let kids = k.tasks[parent].children;
    let i = choose|i: int| 0 <= i < kids.len() && kids[i] == child;
    lemma_children(k, parent);
    assert(exists|j: int| 0 <= j < kids.len() && child_matches(child as int, #[trigger] kids[j]))
        by {
        assert(child_matches(child as int, kids[i]));
    }
    assert forall|j: int| 0 <= j < i implies !(child_matches(child as int, #[trigger] kids[j])
        && k.tasks[kids[j]].task_status == TaskStatus::Zombie) by {
        assert(kids[j] != kids[i]);
    }
    lemma_first_zombie_unique(kids, k.tasks, child as int, i);
}

/// A wait that reaps a child takes it out of the children of the waiting task,
/// the others in their order; the child has no control block any more, its
/// process identifier is the last that was handed back, and its kernel stack is
/// unmapped, the other kernel stacks being as before.
pub proof fn lemma_wait_reaps(k: KernelView, target: int)
    requires
        k.inv(),
        k.current is Some,
        k.waitpid(target).1 >= 0,
    ensures
        ({
            let after = k.waitpid(target).0;
            let parent = k.current->0;
            let kids = k.tasks[parent].children;
            let idx = first_zombie(kids, k.tasks, target);
            let child = kids[idx];
            &&& 0 <= idx < kids.len()
            &&& k.waitpid(target).1 == child
            &&& child_matches(target, child)
            &&& k.live(child)
            &&& k.tasks[child].task_status == TaskStatus::Zombie
            &&& k.waitpid(target).2 == Some(k.tasks[child].exit_code)
            &&& after.inv()
            &&& after.tasks[parent].children == kids.remove(idx)
            &&& !after.tasks[parent].children.contains(child)
            &&& !after.live(child)
            &&& forall|q: usize| q != child ==> after.live(q) == k.live(q)
            &&& after.pid_recycled == k.pid_recycled.push(child)
            &&& !after.stack_mapped(child)
            &&& forall|q: usize| after.live(q) ==> after.stack_mapped(q)
            &&& after.kernel_space.areas.len() == k.kernel_space.areas.len() - 1
        }),
{
    let after = k.waitpid(target).0;
    let parent = k.current->0;
    let kids = k.tasks[parent].children;
    let idx = first_zombie(kids, k.tasks, target);
    lemma_first_zombie(kids, k.tasks, target);
    let child = kids[idx];
    Kernel::lemma_current(k);
    lemma_children(k, parent);
    lemma_waitpid_inv(k, target);
    assert(k.live(child));
    let slot = lemma_stack_slot_taken(k, child);
    assert(after.kernel_space.areas == k.kernel_space.areas.remove(slot));
    if after.stack_mapped(child) {
        let a = choose|a: int|
            0 <= a < after.kernel_space.areas.len() && after.kernel_space.areas[a] == stack_area(
                child as int,
            );
        let a0 = if a < slot { a } else { a + 1 };
        assert(k.kernel_space.areas[a0] == stack_area(child as int));
    }
    if after.tasks[parent].children.contains(child) {
        let left = kids.remove(idx);
        let a = choose|a: int| 0 <= a < left.len() && left[a] == child;
        let a0 = if a < idx { a } else { a + 1 };
        assert(kids[a0] == child);
    }
    assert(after.stacks_inv()) by {
        reveal(KernelView::inv);
    }
}

} // verus!
