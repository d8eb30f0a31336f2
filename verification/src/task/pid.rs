//! Process identifiers, and the kernel stack that each identifier owns in the
//! kernel address space.

use vstd::prelude::*;
use crate::config::{KERNEL_STACK_SIZE, MAX_PID, PAGE_SIZE, TRAMPOLINE, lemma_layout};
use crate::mm::{
    MAP_PERM_R,
    MAP_PERM_W,
    MapArea,
    MemorySet,
    page_floor,
    spec_page_ceil,
    spec_page_floor,
};

verus! {

/// Hands out process identifiers: the most recently recycled one if there is
/// any, else the next that was never used.
pub struct PidAllocator {
    /// The next identifier that was never handed out.
    pub current: usize,
    /// The identifiers that were handed back, oldest first.
    pub recycled: Vec<usize>,
}

/// A process identifier that is in use.
#[derive(Debug)]
pub struct PidHandle(pub usize);

impl PidAllocator {
    /// Every recycled identifier was handed out before, and none is recycled twice.
    pub open spec fn wf(&self) -> bool {
        &&& forall|i: int| 0 <= i < self.recycled@.len() ==> self.recycled@[i] < self.current
        &&& self.recycled@.no_duplicates()
    }

    /// Whether `pid` is handed out and not handed back.
    pub open spec fn live(&self, pid: usize) -> bool {
        pid < self.current && !self.recycled@.contains(pid)
    }

    /// Whether `allocate` has an identifier to hand out.
    pub open spec fn can_alloc(&self) -> bool {
        self.recycled@.len() > 0 || self.current < usize::MAX
    }

    /// The identifier that the next `allocate` hands out.
    pub open spec fn next(&self) -> usize {
        if self.recycled@.len() > 0 {
            self.recycled@.last()
        } else {
            self.current
        }
    }

    /// An allocator that has handed out nothing.
    pub fn new() -> (a: PidAllocator)
        ensures
            a.current == 0,
            a.recycled@ == Seq::<usize>::empty(),
            a.wf(),
    {
        PidAllocator { current: 0, recycled: Vec::new() }
    }

    /// Hands out an identifier: the most recently recycled one if there is any,
    /// else `current`, which then moves on by one.
    pub fn allocate(&mut self) -> (handle: PidHandle)
        requires
            old(self).wf(),
            old(self).can_alloc(),
        ensures
            handle.0 == old(self).next(),
            old(self).recycled@.len() > 0 ==> final(self).current == old(self).current
                && final(self).recycled@ == old(self).recycled@.drop_last(),
            old(self).recycled@.len() == 0 ==> final(self).current == old(self).current + 1
                && final(self).recycled@ == old(self).recycled@,
            final(self).wf(),
            final(self).live(handle.0),
            !old(self).live(handle.0),
            forall|p: usize| p != handle.0 ==> final(self).live(p) == old(self).live(p),
    {
        if let Some(pid) = self.recycled.pop() {
            proof {
                let before = old(self).recycled@;
                let after = self.recycled@;
                assert(before[before.len() - 1] == pid);
                assert forall|p: usize| p != pid implies self.live(p) == old(self).live(p) by {
                    if before.contains(p) {
                        let i = choose|i: int| 0 <= i < before.len() && before[i] == p;
                        assert(after[i] == p);
                    }
                }
                assert(!after.contains(pid)) by {
                    if after.contains(pid) {
                        let i = choose|i: int| 0 <= i < after.len() && after[i] == pid;
                        assert(before[i] == pid);
                    }
                }
            }
            PidHandle(pid)
        } else {
            self.current += 1;
            PidHandle(self.current - 1)
        }
    }

    /// Takes back `pid`, which is handed out and not yet taken back.
    pub fn dealloc(&mut self, pid: usize)
        requires
            old(self).wf(),
            old(self).live(pid),
        ensures
            final(self).current == old(self).current,
            final(self).recycled@ == old(self).recycled@.push(pid),
            final(self).wf(),
            final(self).next() == pid,
            !final(self).live(pid),
            forall|p: usize| p != pid ==> final(self).live(p) == old(self).live(p),
    {
        self.recycled.push(pid);
        proof {
            let before = old(self).recycled@;
            let after = self.recycled@;
            assert(after[before.len() as int] == pid);
            assert forall|p: usize| p != pid implies self.live(p) == old(self).live(p) by {
                if before.contains(p) {
                    let i = choose|i: int| 0 <= i < before.len() && before[i] == p;
                    assert(after[i] == p);
                }
            }
        }
    }
}

impl PidHandle {
    /// Gives the identifier back to `allocator`.
    pub fn drop(self, allocator: &mut PidAllocator)
        requires
            old(allocator).wf(),
            old(allocator).live(self.0),
        ensures
            final(allocator).current == old(allocator).current,
            final(allocator).recycled@ == old(allocator).recycled@.push(self.0),
            final(allocator).wf(),
            final(allocator).next() == self.0,
            !final(allocator).live(self.0),
            forall|p: usize| p != self.0 ==> final(allocator).live(p) == old(allocator).live(p),
    {
        allocator.dealloc(self.0);
    }
}

/// Hands out an identifier from `allocator`.
pub fn pid_alloc(allocator: &mut PidAllocator) -> (handle: PidHandle)
    requires
        old(allocator).wf(),
        old(allocator).can_alloc(),
    ensures
        handle.0 == old(allocator).next(),
        old(allocator).recycled@.len() > 0 ==> final(allocator).current == old(allocator).current
            && final(allocator).recycled@ == old(allocator).recycled@.drop_last(),
        old(allocator).recycled@.len() == 0 ==> final(allocator).current == old(allocator).current
            + 1 && final(allocator).recycled@ == old(allocator).recycled@,
        final(allocator).wf(),
        final(allocator).live(handle.0),
        !old(allocator).live(handle.0),
        forall|p: usize| p != handle.0 ==> final(allocator).live(p) == old(allocator).live(p),
{
    allocator.allocate()
}

/// Bottom and top address of the kernel stack of `app_id`: the stacks lie below
/// the trampoline, one after the other, each followed by one guard page.
pub open spec fn spec_kernel_stack_position(app_id: int) -> (int, int) {
    let top = TRAMPOLINE - app_id * (KERNEL_STACK_SIZE + PAGE_SIZE);
    (top - KERNEL_STACK_SIZE, top)
}

/// The region that the kernel stack of `pid` takes in the kernel address space.
pub open spec fn stack_area(pid: int) -> MapArea {
    MapArea {
        start_vpn: spec_page_floor(spec_kernel_stack_position(pid).0) as usize,
        end_vpn: spec_page_ceil(spec_kernel_stack_position(pid).1) as usize,
        perm: MAP_PERM_R | MAP_PERM_W,
    }
}

/// The process identifier whose kernel stack ends where `area` ends.
pub open spec fn stack_owner(area: MapArea) -> usize {
    ((TRAMPOLINE / PAGE_SIZE - area.end_vpn) / 3) as usize
}

/// The kernel stack of `pid` is the two pages below page `t - 3 * pid`, where `t`
/// is the page of the trampoline.
pub proof fn lemma_stack_area(pid: int)
    requires
        0 <= pid <= MAX_PID,
    ensures
        0 <= spec_kernel_stack_position(pid).0 < spec_kernel_stack_position(pid).1 <= TRAMPOLINE,
        stack_area(pid).end_vpn == TRAMPOLINE / PAGE_SIZE - 3 * pid,
        stack_area(pid).start_vpn == TRAMPOLINE / PAGE_SIZE - 3 * pid - 2,
        stack_area(pid).start_vpn >= 0,
        stack_owner(stack_area(pid)) == pid,
{
    lemma_layout();
    let t = (TRAMPOLINE / PAGE_SIZE) as int;
    assert(TRAMPOLINE == t * 4096);
    let top = spec_kernel_stack_position(pid).1;
    let bottom = spec_kernel_stack_position(pid).0;
    assert(KERNEL_STACK_SIZE + PAGE_SIZE == 12288);
    assert(pid * (KERNEL_STACK_SIZE + PAGE_SIZE) == pid * 12288);
    assert(MAX_PID * (KERNEL_STACK_SIZE + PAGE_SIZE) == MAX_PID * 12288);
    assert(top == (t - 3 * pid) * 4096);
    assert(bottom == (t - 3 * pid - 2) * 4096);
    assert(bottom >= 0);
    assert(spec_page_floor(bottom) == t - 3 * pid - 2);
    assert(spec_page_ceil(top) == t - 3 * pid);
}

/// Between the kernel stacks of two identifiers that follow each other lies one
/// page that belongs to neither: the guard page.
pub proof fn lemma_guard_page(pid: int)
    requires
        0 <= pid < MAX_PID,
    ensures
        stack_area(pid + 1).end_vpn + 1 == stack_area(pid).start_vpn,
        !stack_area(pid).contains(stack_area(pid + 1).end_vpn as int),
        !stack_area(pid + 1).contains(stack_area(pid + 1).end_vpn as int),
{
    lemma_stack_area(pid);
    lemma_stack_area(pid + 1);
}

/// The kernel stacks of two different identifiers share no page and start at
/// different pages.
pub proof fn lemma_stack_areas_apart(p: int, q: int)
    requires
        0 <= p <= MAX_PID,
        0 <= q <= MAX_PID,
        p != q,
    ensures
        stack_area(p).disjoint(stack_area(q)),
        stack_area(p).start_vpn != stack_area(q).start_vpn,
        stack_area(p) != stack_area(q),
{
    lemma_stack_area(p);
    lemma_stack_area(q);
}

/// Bottom and top address of the kernel stack of `app_id`.
pub fn kernel_stack_position(app_id: usize) -> (r: (usize, usize))
    requires
        app_id <= MAX_PID,
    ensures
        r.0 == spec_kernel_stack_position(app_id as int).0,
        r.1 == spec_kernel_stack_position(app_id as int).1,
{
    proof {
        lemma_layout();
        lemma_stack_area(app_id as int);
    }
    let top: usize = TRAMPOLINE - app_id * (KERNEL_STACK_SIZE + PAGE_SIZE);
    let bottom: usize = top - KERNEL_STACK_SIZE;
    (bottom, top)
}

/// The kernel stack of one process: a region of the kernel address space whose
/// place follows from the process identifier.
#[derive(Debug)]
pub struct KernelStack {
    pub pid: usize,
}

impl KernelStack {
    /// Maps the kernel stack of `pid_handle` into `kernel_space`, readable and
    /// writable.
    pub fn new(pid_handle: &PidHandle, kernel_space: &mut MemorySet) -> (stack: KernelStack)
        requires
            pid_handle.0 <= MAX_PID,
            old(kernel_space)@.wf(),
            old(kernel_space)@.range_free(
                stack_area(pid_handle.0 as int).start_vpn as int,
                stack_area(pid_handle.0 as int).end_vpn as int,
            ),
        ensures
            stack.pid == pid_handle.0,
            final(kernel_space)@ == old(kernel_space)@.insert(stack_area(pid_handle.0 as int)),
            final(kernel_space)@.wf(),
    {
        let pid: usize = pid_handle.0;
        let (kernel_stack_bottom, kernel_stack_top) = kernel_stack_position(pid);
        proof {
            lemma_stack_area(pid as int);
        }
        kernel_space.insert_framed_area(
            kernel_stack_bottom,
            kernel_stack_top,
            MAP_PERM_R | MAP_PERM_W,
        );
        KernelStack { pid: pid_handle.0 }
    }

    /// The address at which a value of `size` bytes lies when it is pushed on the
    /// empty stack.
    pub fn push_on_top(&self, size: usize) -> (addr: usize)
        requires
            self.pid <= MAX_PID,
            size <= KERNEL_STACK_SIZE,
        ensures
            addr == spec_kernel_stack_position(self.pid as int).1 - size,
            spec_kernel_stack_position(self.pid as int).0 <= addr,
    {
        let kernel_stack_top: usize = self.get_top();
        proof {
            lemma_stack_area(self.pid as int);
        }
        kernel_stack_top - size
    }

    /// The top address of the stack.
    pub fn get_top(&self) -> (top: usize)
        requires
            self.pid <= MAX_PID,
        ensures
            top == spec_kernel_stack_position(self.pid as int).1,
    {
        let (_, kernel_stack_top) = kernel_stack_position(self.pid);
        kernel_stack_top
    }

    /// Unmaps the stack from `kernel_space`: what starts at the stack's bottom
    /// page.
    pub fn drop(self, kernel_space: &mut MemorySet)
        requires
            self.pid <= MAX_PID,
            old(kernel_space)@.wf(),
        ensures
            final(kernel_space)@ == old(kernel_space)@.remove_start(
                stack_area(self.pid as int).start_vpn as int,
            ),
            final(kernel_space)@.wf(),
    {
        let (kernel_stack_bottom, _) = kernel_stack_position(self.pid);
        proof {
            lemma_stack_area(self.pid as int);
        }
        kernel_space.remove_area_with_start_vpn(page_floor(kernel_stack_bottom));
    }
}

} // verus!
