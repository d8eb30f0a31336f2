//! What the switch primitive is to be called with.
//!
//! The primitive itself swaps the callee-saved registers and the stack pointer
//! between two context slots and belongs to the platform. The process subsystem
//! decides which two slots.

use vstd::prelude::*;

verus! {

/// A place that holds a [`TaskContext`](super::context::TaskContext).
#[derive(Clone, Copy, Debug, PartialEq, Eq, Structural)]
pub enum ContextSlot {
    /// The slot of the processor's idle control flow.
    Idle,
    /// The slot in the control block of the task with this process identifier.
    Task(usize),
    /// A throw-away slot: what is saved there is never restored.
    Unused,
}

/// One call of the switch primitive: save the running registers in `from`, then
/// load those in `to`.
#[derive(Clone, Copy, Debug, PartialEq, Eq, Structural)]
pub struct Switch {
    pub from: ContextSlot,
    pub to: ContextSlot,
}

} // verus!
