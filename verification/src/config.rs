//! Constants of the kernel's memory layout and scheduling policy.

use vstd::prelude::*;

verus! {

/// Bytes in one page.
pub const PAGE_SIZE: usize = 0x1000;

/// Bytes in one kernel stack: two pages.
pub const KERNEL_STACK_SIZE: usize = 0x2000;

/// Address of the trampoline page, the last page of the address space.
pub const TRAMPOLINE: usize = usize::MAX - PAGE_SIZE + 1;

/// Address of the page that holds a task's trap frame, just below the trampoline.
pub const TRAP_CONTEXT: usize = TRAMPOLINE - PAGE_SIZE;

/// One more than the largest system call number that is counted per task.
pub const MAX_SYSCALL_NUM: usize = 500;

/// The stride budget: a task of priority `p` advances its pass by `BIG_STRIDE / p`.
pub const BIG_STRIDE: usize = 255;

/// The largest process identifier whose kernel stack still fits below the trampoline.
pub const MAX_PID: usize = (TRAMPOLINE - KERNEL_STACK_SIZE) / (KERNEL_STACK_SIZE + PAGE_SIZE);

/// The trampoline is page aligned and lies above every kernel stack slot.
pub proof fn lemma_layout()
    ensures
        TRAMPOLINE % PAGE_SIZE == 0,
        TRAP_CONTEXT % PAGE_SIZE == 0,
        TRAMPOLINE >= 0xffff_f000,
        MAX_PID * (KERNEL_STACK_SIZE + PAGE_SIZE) + KERNEL_STACK_SIZE <= TRAMPOLINE,
        MAX_PID >= 0x1_5554,
        MAX_PID < isize::MAX,
{
    assert(usize::MAX == 0xffff_ffff || usize::MAX == 0xffff_ffff_ffff_ffff) by {
        assert(usize::BITS == 32 || usize::BITS == 64);
    }
    assert(MAX_PID == (TRAMPOLINE - 0x2000) / 0x3000);
    if usize::MAX == 0xffff_ffff {
        assert(TRAMPOLINE == 0xffff_f000);
        assert(0xffff_d000int / 0x3000 == 0x5_5554);
    } else {
        assert(TRAMPOLINE == 0xffff_ffff_ffff_f000);
        assert(0xffff_ffff_ffff_d000int / 0x3000 == 0x5_5555_5555_5554);
    }
}

} // verus!
