//! The register snapshot that the switch primitive saves and restores.

use vstd::prelude::*;

verus! {

/// The callee-saved registers of a control flow that is not running.
#[derive(Clone, Copy, Debug)]
pub struct TaskContext {
    /// Return address: where the control flow goes on when switched to.
    pub ra: usize,
    /// Stack pointer.
    pub sp: usize,
    /// The saved registers `s0` to `s11`.
    pub s: [usize; 12],
}

/// The mathematical content of a [`TaskContext`].
pub struct TaskContextView {
    pub ra: usize,
    pub sp: usize,
    pub s: Seq<usize>,
}

impl View for TaskContext {
    type V = TaskContextView;

    open spec fn view(&self) -> TaskContextView {
        TaskContextView { ra: self.ra, sp: self.sp, s: self.s@ }
    }
}

impl TaskContextView {
    /// The context with every register zero.
    pub open spec fn zero() -> TaskContextView {
        TaskContextView { ra: 0, sp: 0, s: Seq::new(12, |i: int| 0usize) }
    }

    /// The context of a task that was never run: it starts at `trap_return`, on
    /// the kernel stack that ends at `kstack_ptr`.
    pub open spec fn trap_return(kstack_ptr: usize, trap_return: usize) -> TaskContextView {
        TaskContextView { ra: trap_return, sp: kstack_ptr, s: Seq::new(12, |i: int| 0usize) }
    }
}

impl TaskContext {
    /// The context with every register zero.
    pub fn zero_init() -> (cx: TaskContext)
        ensures
            cx@ == TaskContextView::zero(),
    {
        let cx = TaskContext { ra: 0, sp: 0, s: [0; 12] };
        assert(cx@.s =~= Seq::new(12, |i: int| 0usize));
        cx
    }

    /// The context of a task that was never run: it starts at `trap_return`, on
    /// the kernel stack that ends at `kstack_ptr`.
    pub fn goto_trap_return(kstack_ptr: usize, trap_return: usize) -> (cx: TaskContext)
        ensures
            cx@ == TaskContextView::trap_return(kstack_ptr, trap_return),
    {
        let cx = TaskContext { ra: trap_return, sp: kstack_ptr, s: [0; 12] };
        assert(cx@.s =~= Seq::new(12, |i: int| 0usize));
        cx
    }
}

} // verus!
