//! The trap frame of a task, as far as the process subsystem reads and writes it.

use vstd::prelude::*;

verus! {

/// Index of the stack pointer among the general registers.
pub const REG_SP: usize = 2;

/// Index of the first argument and return value register.
pub const REG_A0: usize = 10;

/// The addresses of the platform's two trap routines.
#[derive(Clone, Copy, Debug, PartialEq, Eq, Structural)]
pub struct TrapEntry {
    /// Where a trap from user mode enters the kernel.
    pub trap_handler: usize,
    /// Where a task that is switched to for the first time starts, on its way
    /// back to user mode.
    pub trap_return: usize,
}

/// The register snapshot that is saved when a task traps into the kernel and
/// restored when it returns to user mode.
#[derive(Clone, Copy, Debug)]
pub struct TrapContext {
    /// The general registers.
    pub x: [usize; 32],
    /// The user program counter to return to.
    pub sepc: usize,
    /// Token of the kernel address space.
    pub kernel_satp: usize,
    /// Top of the task's kernel stack.
    pub kernel_sp: usize,
    /// Address of the kernel's trap handler.
    pub trap_handler: usize,
}

/// The mathematical content of a [`TrapContext`].
pub struct TrapContextView {
    pub x: Seq<usize>,
    pub sepc: usize,
    pub kernel_satp: usize,
    pub kernel_sp: usize,
    pub trap_handler: usize,
}

impl View for TrapContext {
    type V = TrapContextView;

    open spec fn view(&self) -> TrapContextView {
        TrapContextView {
            x: self.x@,
            sepc: self.sepc,
            kernel_satp: self.kernel_satp,
            kernel_sp: self.kernel_sp,
            trap_handler: self.trap_handler,
        }
    }
}

impl TrapContextView {
    /// The frame of a program about to run its first instruction: program counter
    /// at `entry`, stack pointer at `sp`, every other general register zero.
    pub open spec fn app_init(
        entry: usize,
        sp: usize,
        kernel_satp: usize,
        kernel_sp: usize,
        trap_handler: usize,
    ) -> TrapContextView {
        TrapContextView {
            x: Seq::new(32, |i: int| if i == REG_SP { sp } else { 0usize }),
            sepc: entry,
            kernel_satp,
            kernel_sp,
            trap_handler,
        }
    }
}

impl TrapContext {
    /// Sets the stack pointer register.
    pub fn set_sp(&mut self, sp: usize)
        ensures
            final(self)@ == (TrapContextView { x: old(self)@.x.update(REG_SP as int, sp), ..old(self)@ }),
    {
        self.x[REG_SP] = sp;
    }

    /// The frame of a program about to run its first instruction.
    pub fn app_init_context(
        entry: usize,
        sp: usize,
        kernel_satp: usize,
        kernel_sp: usize,
        trap_handler: usize,
    ) -> (cx: TrapContext)
        ensures
            cx@ == TrapContextView::app_init(entry, sp, kernel_satp, kernel_sp, trap_handler),
    {
        let mut cx = TrapContext { x: [0; 32], sepc: entry, kernel_satp, kernel_sp, trap_handler };
        cx.set_sp(sp);
        assert(cx@.x =~= Seq::new(32, |i: int| if i == REG_SP { sp } else { 0usize }));
        cx
    }
}

} // verus!
