//! The process subsystem of a small multitasking kernel: process identifiers and
//! kernel stacks, task control blocks with their parent-child lifecycle, a stride
//! scheduler, the processor's dispatch step, and the system calls that act on them.
//!
//! The kernel state is one explicit value, [`task::Kernel`]. Every operation takes it
//! by reference, says in its contract how the state changes, and keeps the
//! invariant [`task::Kernel::wf`]. What only the machine can do (switching register
//! contexts, touching user memory, reading the timer, loading a program image) is
//! left to the caller: operations take such results as arguments and hand back the
//! action that remains to be carried out.

pub mod config;
pub mod loader;
pub mod mm;
pub mod syscall;
pub mod task;
pub mod theorems;
pub mod trap;
