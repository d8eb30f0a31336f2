//! The table of task control blocks, one slot for each process identifier.

use vstd::prelude::*;
use super::task::{TaskControlBlock, TaskView};

verus! {

/// The control blocks of the live tasks: slot `pid` holds the block of the task
/// with that process identifier, or nothing.
pub struct TaskTable {
    pub slots: Vec<Option<TaskControlBlock>>,
}

impl View for TaskTable {
    type V = Map<usize, TaskView>;

    /// The live tasks by process identifier.
    open spec fn view(&self) -> Map<usize, TaskView> {
        TaskTable::view_of(self.slots@)
    }
}

impl TaskTable {
    /// A table without tasks.
    pub fn new() -> (table: TaskTable)
        ensures
            table@ == Map::<usize, TaskView>::empty(),
            table.slots@.len() == 0,
    {
        let table = TaskTable { slots: Vec::new() };
        assert(table@ =~= Map::<usize, TaskView>::empty());
        table
    }

    /// Number of slots: one more than the largest process identifier that ever
    /// had a block here.
    pub fn len(&self) -> (n: usize)
        ensures
            n == self.slots@.len(),
    {
        self.slots.len()
    }

    /// Whether the task `pid` has a block here.
    pub fn contains(&self, pid: usize) -> (r: bool)
        ensures
            r == self@.dom().contains(pid),
    {
        pid < self.slots.len() && self.slots[pid].is_some()
    }

    /// The block of task `pid`.
    pub fn get(&self, pid: usize) -> (task: &TaskControlBlock)
        requires
            self@.dom().contains(pid),
        ensures
            task@ == self@[pid],
            *task == self.slots@[pid as int]->0,
    {
        self.slots[pid].as_ref().unwrap()
    }

    /// The block of task `pid`, to be changed in place.
    pub fn get_mut(&mut self, pid: usize) -> (task: &mut TaskControlBlock)
        requires
            old(self)@.dom().contains(pid),
        ensures
            *task == old(self).slots@[pid as int]->0,
            final(self).slots@ == old(self).slots@.update(pid as int, Some(*final(task))),
            final(self).slots@.len() == old(self).slots@.len(),
            final(self)@ == old(self)@.insert(pid, final(task)@),
    {
        proof {
            assert forall|t: TaskControlBlock| #[trigger]
                Self::view_of(old(self).slots@.update(pid as int, Some(t))) == old(self)@.insert(
                    pid,
                    t@,
                ) by {
                assert(Self::view_of(old(self).slots@.update(pid as int, Some(t))) =~= old(
                    self,
                )@.insert(pid, t@));
            }
        }
        self.slots[pid].as_mut().unwrap()
    }

    /// The live tasks of a sequence of slots.
    pub open spec fn view_of(slots: Seq<Option<TaskControlBlock>>) -> Map<usize, TaskView> {
        Map::new(
            |pid: usize| pid < slots.len() && slots[pid as int] is Some,
            |pid: usize| slots[pid as int]->0@,
        )
    }

    /// Puts `task` into the slot of its process identifier, which is empty or
    /// the first beyond the table.
    pub fn insert(&mut self, task: TaskControlBlock)
        requires
            task@.pid <= old(self).slots@.len(),
            !old(self)@.dom().contains(task@.pid),
        ensures
            final(self)@ == old(self)@.insert(task@.pid, task@),
            final(self).slots@.len() == if task@.pid == old(self).slots@.len() {
                old(self).slots@.len() + 1
            } else {
                old(self).slots@.len()
            },
    {
        let pid: usize = task.pid.0;
        if pid == self.slots.len() {
            self.slots.push(Some(task));
        } else {
            self.slots[pid] = Some(task);
        }
        assert(self@ =~= old(self)@.insert(pid, task@));
    }

    /// Takes the block of task `pid` out of the table.
    pub fn remove(&mut self, pid: usize) -> (task: TaskControlBlock)
        requires
            old(self)@.dom().contains(pid),
        ensures
            task@ == old(self)@[pid],
            task == old(self).slots@[pid as int]->0,
            final(self)@ == old(self)@.remove(pid),
            final(self).slots@.len() == old(self).slots@.len(),
    {
        let task = self.slots[pid].take().unwrap();
        assert(self@ =~= old(self)@.remove(pid));
        task
    }
}

} // verus!
