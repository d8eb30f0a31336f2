//! The ready queue and the stride scheduler that picks from it.

use vstd::prelude::*;
use std::collections::VecDeque;
use crate::config::BIG_STRIDE;
use super::table::TaskTable;
use super::task::TaskView;

verus! {

/// The tasks that are ready to run, by process identifier, in the order in which
/// they became ready.
pub struct TaskManager {
    pub ready_queue: VecDeque<usize>,
}

/// Whether pass `a` comes before pass `b`: whether their difference, taken as a
/// signed 8-bit number, is negative. This orders passes rightly across a
/// wraparound as long as they lie less than 128 apart.
pub open spec fn pass_before(a: usize, b: usize) -> bool {
    (a as int - b as int) % 256 >= 128
}

/// The index that the scheduler picks among `passes`: it goes through them from
/// the first on and keeps the first as its choice until a later one comes before
/// the choice it holds. Among equal passes the earliest wins.
pub open spec fn stride_pick(passes: Seq<usize>) -> int
    decreases passes.len(),
{
    if passes.len() <= 1 {
        0
    } else {
        let held = stride_pick(passes.drop_last());
        if pass_before(passes.last(), passes[held]) {
            passes.len() - 1
        } else {
            held
        }
    }
}

/// The step by which a task of `priority` moves its pass on when it is picked.
pub open spec fn stride_of(priority: u8) -> usize {
    (BIG_STRIDE / (priority as usize)) as usize
}

/// The pass of a task of `priority` after it was picked at `pass`.
pub open spec fn pass_after(pass: usize, priority: u8) -> usize {
    pass.wrapping_add(stride_of(priority))
}

/// The pass of each task in `queue`.
pub open spec fn queue_passes(queue: Seq<usize>, tasks: Map<usize, TaskView>) -> Seq<usize> {
    Seq::new(queue.len(), |i: int| tasks[queue[i]].pass)
}

/// The position in `queue` of the task that the scheduler picks.
pub open spec fn fetch_index(queue: Seq<usize>, tasks: Map<usize, TaskView>) -> int {
    stride_pick(queue_passes(queue, tasks))
}

/// The pick lies within the sequence.
pub proof fn lemma_stride_pick_bounds(passes: Seq<usize>)
    requires
        passes.len() > 0,
    ensures
        0 <= stride_pick(passes) < passes.len(),
    decreases passes.len(),
{
    if passes.len() > 1 {
        lemma_stride_pick_bounds(passes.drop_last());
    }
}

impl TaskManager {
    /// A manager without ready tasks.
    pub fn new() -> (m: TaskManager)
        ensures
            m.ready_queue@ == Seq::<usize>::empty(),
    {
        TaskManager { ready_queue: VecDeque::new() }
    }

    /// Appends `task` to the ready queue.
    pub fn add(&mut self, task: usize)
        ensures
            final(self).ready_queue@ == old(self).ready_queue@.push(task),
    {
        self.ready_queue.push_back(task);
    }

    /// Takes the next task to run out of the ready queue: the one that
    /// `stride_pick` chooses by the passes. Its pass moves on by its stride.
    /// Nothing changes if the queue is empty.
    pub fn fetch(&mut self, tasks: &mut TaskTable) -> (r: Option<usize>)
        requires
            forall|i: int|
                0 <= i < old(self).ready_queue@.len() ==> old(tasks)@.dom().contains(
                    #[trigger] old(self).ready_queue@[i],
                ) && old(tasks)@[old(self).ready_queue@[i]].priority > 0,
        ensures
            old(self).ready_queue@.len() == 0 ==> r is None && final(self).ready_queue@ == old(
                self,
            ).ready_queue@ && final(tasks)@ == old(tasks)@,
            old(self).ready_queue@.len() > 0 ==> ({
                let idx = fetch_index(old(self).ready_queue@, old(tasks)@);
                let pid = old(self).ready_queue@[idx];
                &&& 0 <= idx < old(self).ready_queue@.len()
                &&& r == Some(pid)
                &&& final(self).ready_queue@ == old(self).ready_queue@.remove(idx)
                &&& final(tasks)@ == old(tasks)@.insert(
                    pid,
                    TaskView {
                        pass: pass_after(old(tasks)@[pid].pass, old(tasks)@[pid].priority),
                        ..old(tasks)@[pid]
                    },
                )
            }),
            final(tasks).slots@.len() == old(tasks).slots@.len(),
    {
        let n: usize = self.ready_queue.len();
        if n == 0 {
            return None;
        }
        let ghost passes = queue_passes(self.ready_queue@, tasks@);
        let mut min_pass: usize = usize::MAX;
        let mut idx: usize = 0;
        let mut i: usize = 0;
        while i < n
            invariant
                i <= n,
                n == self.ready_queue@.len(),
                n > 0,
                passes == queue_passes(self.ready_queue@, tasks@),
                forall|k: int|
                    0 <= k < self.ready_queue@.len() ==> tasks@.dom().contains(
                        #[trigger] self.ready_queue@[k],
                    ),
                i > 0 ==> idx == stride_pick(passes.subrange(0, i as int)) && idx < i && min_pass
                    == passes[idx as int],
                i == 0 ==> idx == 0,
            decreases n - i,
        {
            let pid: usize = self.ready_queue[i];
            let pass: usize = tasks.get(pid).inner.pass;
            proof {
                assert(passes.subrange(0, i + 1).drop_last() =~= passes.subrange(0, i as int));
                assert(passes.subrange(0, i + 1).last() == pass);
            }
            if i == 0 {
                min_pass = pass;
                idx = i;
            } else {
                let diff: usize = pass.wrapping_sub(min_pass);
                let signed: i8 = #[verifier::truncate] (diff as i8);
                assert(signed < 0 <==> pass_before(pass, min_pass)) by {
                    assert(signed < 0 <==> diff % 256 >= 128) by (bit_vector)
                        requires
                            signed == #[verifier::truncate] (diff as i8),
                    ;
                    lemma_wrapping_sub_mod_256(pass, min_pass);
                }
                if signed < 0 {
                    min_pass = pass;
                    idx = i;
                }
            }
            i += 1;
        }
        assert(passes.subrange(0, n as int) =~= passes);
        let pid: usize = self.ready_queue[idx];
        let task = tasks.get_mut(pid);
        let ghost before = task@;
        let stride: u8 = (BIG_STRIDE as u8) / task.inner.priority;
        task.inner.pass = task.inner.pass.wrapping_add(stride as usize);
        assert(task@ == (TaskView { pass: pass_after(before.pass, before.priority), ..before }));
        self.ready_queue.remove(idx);
        Some(pid)
    }
}

/// The low eight bits of a wrapping difference are those of the true difference.
pub proof fn lemma_wrapping_sub_mod_256(a: usize, b: usize)
    ensures
        a.wrapping_sub(b) % 256 == (a as int - b as int) % 256,
{
    let m = usize::MAX as int + 1;
    assert(m == 0x1_0000_0000 || m == 0x1_0000_0000_0000_0000) by {
        assert(usize::BITS == 32 || usize::BITS == 64);
    }
    let d = a as int - b as int;
    if d >= 0 {
        assert(a.wrapping_sub(b) == d);
    } else {
        assert(a.wrapping_sub(b) == d + m);
        assert((d + m) % 256 == d % 256) by {
            if m == 0x1_0000_0000 {
                assert((d + 0x1_0000_0000) % 256 == d % 256);
            } else {
                assert((d + 0x1_0000_0000_0000_0000) % 256 == d % 256);
            }
        }
    }
}

/// Appends `task` to the ready queue of `manager`.
pub fn add_task(manager: &mut TaskManager, task: usize)
    ensures
        final(manager).ready_queue@ == old(manager).ready_queue@.push(task),
{
    manager.add(task);
}

/// Takes the next task to run out of the ready queue of `manager`; see
/// [`TaskManager::fetch`].
pub fn fetch_task(manager: &mut TaskManager, tasks: &mut TaskTable) -> (r: Option<usize>)
    requires
        forall|i: int|
            0 <= i < old(manager).ready_queue@.len() ==> old(tasks)@.dom().contains(
                #[trigger] old(manager).ready_queue@[i],
            ) && old(tasks)@[old(manager).ready_queue@[i]].priority > 0,
    ensures
        old(manager).ready_queue@.len() == 0 ==> r is None && final(manager).ready_queue@ == old(
            manager,
        ).ready_queue@ && final(tasks)@ == old(tasks)@,
        old(manager).ready_queue@.len() > 0 ==> ({
            let idx = fetch_index(old(manager).ready_queue@, old(tasks)@);
            let pid = old(manager).ready_queue@[idx];
            &&& 0 <= idx < old(manager).ready_queue@.len()
            &&& r == Some(pid)
            &&& final(manager).ready_queue@ == old(manager).ready_queue@.remove(idx)
            &&& final(tasks)@ == old(tasks)@.insert(
                pid,
                TaskView {
                    pass: pass_after(old(tasks)@[pid].pass, old(tasks)@[pid].priority),
                    ..old(tasks)@[pid]
                },
            )
        }),
        final(tasks).slots@.len() == old(tasks).slots@.len(),
{
    manager.fetch(tasks)
}

} // verus!
