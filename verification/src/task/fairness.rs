//! How the stride scheduler shares the processor between two tasks that always
//! want to run.

use vstd::prelude::*;
use super::manager::{pass_after, pass_before, stride_of, stride_pick};

verus! {

/// Two tasks, 0 and 1, that take turns: both are in the ready queue, the
/// scheduler picks one, it runs and gives up the processor, and so is back at
/// the end of the ready queue.
pub struct Rivals {
    /// The priorities of the two tasks.
    pub priority: (u8, u8),
    /// The passes of the two tasks.
    pub pass: (usize, usize),
    /// Which of the two tasks is first in the ready queue.
    pub front: int,
    /// How often each of the two tasks was picked.
    pub runs: (nat, nat),
}

impl Rivals {
    /// Two tasks that start with the same pass.
    pub open spec fn start(priority: (u8, u8), pass: usize, front: int) -> Rivals {
        Rivals { priority, pass: (pass, pass), front, runs: (0, 0) }
    }

    /// The passes in the ready queue, in its order.
    pub open spec fn queue(self) -> Seq<usize> {
        if self.front == 0 {
            seq![self.pass.0, self.pass.1]
        } else {
            seq![self.pass.1, self.pass.0]
        }
    }

    /// The task that the scheduler picks.
    pub open spec fn picked(self) -> int {
        if stride_pick(self.queue()) == 0 {
            self.front
        } else {
            1 - self.front
        }
    }

    /// The state after the picked task has run and is back in the ready queue,
    /// behind the other.
    pub open spec fn turn(self) -> Rivals {
        if self.picked() == 0 {
            Rivals {
                pass: (pass_after(self.pass.0, self.priority.0), self.pass.1),
                front: 1,
                runs: (self.runs.0 + 1, self.runs.1),
                ..self
            }
        } else {
            Rivals {
                pass: (self.pass.0, pass_after(self.pass.1, self.priority.1)),
                front: 0,
                runs: (self.runs.0, self.runs.1 + 1),
                ..self
            }
        }
    }

    /// The state after `n` turns.
    pub open spec fn turns(self, n: nat) -> Rivals
        decreases n,
    {
        if n == 0 {
            self
        } else {
            self.turns((n - 1) as nat).turn()
        }
    }

    /// How far task 0 is ahead of task 1, in strides: what it was given minus
    /// what the other was given.
    pub open spec fn lead(self) -> int {
        self.runs.0 * stride_of(self.priority.0) - self.runs.1 * stride_of(self.priority.1)
    }
}

/// The stride of a priority of at least 2 is at least 1 and at most 127.
pub proof fn lemma_stride_bounds(priority: u8)
    requires
        priority >= 2,
    ensures
        1 <= stride_of(priority) <= 127,
{
    let p = priority as int;
    assert(255int / p <= 127 && 255int / p >= 1) by (nonlinear_arith)
        requires
            2 <= p <= 255,
    ;
}

/// The low eight bits of a pass that has moved on are those of the sum.
pub proof fn lemma_pass_after_mod_256(pass: usize, priority: u8)
    requires
        priority >= 2,
    ensures
        pass_after(pass, priority) as int % 256 == (pass + stride_of(priority)) % 256,
{
    lemma_stride_bounds(priority);
    let m = usize::MAX as int + 1;
    assert(m == 0x1_0000_0000 || m == 0x1_0000_0000_0000_0000) by {
        assert(usize::BITS == 32 || usize::BITS == 64);
    }
    let sum = pass as int + stride_of(priority) as int;
    if sum <= usize::MAX {
        assert(pass_after(pass, priority) == sum);
    } else {
        assert(pass_after(pass, priority) == sum - m);
        if m == 0x1_0000_0000 {
            assert((sum - 0x1_0000_0000) % 256 == sum % 256);
        } else {
            assert((sum - 0x1_0000_0000_0000_0000) % 256 == sum % 256);
        }
    }
}

/// What holds after every turn of two tasks that started with the same pass:
/// the passes differ, in their low eight bits, by the lead of task 0, and no
/// task leads by more than one stride of its own.
pub open spec fn balanced(r: Rivals) -> bool {
    &&& r.front == 0 || r.front == 1
    &&& (r.pass.0 as int - r.pass.1 as int) % 256 == r.lead() % 256
    &&& -(stride_of(r.priority.1) as int) <= r.lead() <= stride_of(r.priority.0)
}

/// A turn keeps the balance and goes to the task that does not lead.
pub proof fn lemma_turn(r: Rivals)
    requires
        r.priority.0 >= 2,
        r.priority.1 >= 2,
        balanced(r),
    ensures
        balanced(r.turn()),
        r.turn().runs.0 + r.turn().runs.1 == r.runs.0 + r.runs.1 + 1,
        r.picked() == 0 ==> r.lead() <= 0,
        r.picked() == 1 ==> r.lead() >= 0,
        r.picked() == 0 || r.picked() == 1,
{
    let s0 = stride_of(r.priority.0) as int;
    let s1 = stride_of(r.priority.1) as int;
    lemma_stride_bounds(r.priority.0);
    lemma_stride_bounds(r.priority.1);
    let d = r.lead();
    let gap = r.pass.0 as int - r.pass.1 as int;
    lemma_pick_of_two(r.queue()[0], r.queue()[1]);
    assert(r.queue() =~= seq![r.queue()[0], r.queue()[1]]);
    lemma_sign(gap, d);
    let after = r.turn();
    if r.picked() == 0 {
        lemma_pass_after_mod_256(r.pass.0, r.priority.0);
        assert(after.lead() == d + s0) by (nonlinear_arith)
            requires
                after.lead() == (r.runs.0 + 1) * s0 - r.runs.1 * s1,
                d == r.runs.0 * s0 - r.runs.1 * s1,
        ;
        let moved = pass_after(r.pass.0, r.priority.0) as int;
        lemma_same_residue(moved, r.pass.0 + s0, -(r.pass.1 as int));
        lemma_same_residue(gap, d, s0);
    } else {
        lemma_pass_after_mod_256(r.pass.1, r.priority.1);
        assert(after.lead() == d - s1) by (nonlinear_arith)
            requires
                after.lead() == r.runs.0 * s0 - (r.runs.1 + 1) * s1,
                d == r.runs.0 * s0 - r.runs.1 * s1,
        ;
        let moved = pass_after(r.pass.1, r.priority.1) as int;
        lemma_negated_residue(moved, r.pass.1 + s1);
        lemma_same_residue(-moved, -(r.pass.1 + s1), r.pass.0 as int);
        lemma_same_residue(gap, d, -s1);
    }
}

/// Among two passes the scheduler picks the second if it comes before the
/// first, else the first.
pub proof fn lemma_pick_of_two(first: usize, second: usize)
    ensures
        stride_pick(seq![first, second]) == if pass_before(second, first) {
            1int
        } else {
            0int
        },
{
    let q = seq![first, second];
    assert(q.len() == 2);
    assert(q.drop_last().len() == 1);
    assert(stride_pick(q.drop_last()) == 0);
    assert(q.drop_last()[0] == first);
    assert(q.last() == second);
}

/// Numbers with the same low eight bits keep them the same when the same number
/// is added to both.
pub proof fn lemma_same_residue(a: int, b: int, c: int)
    requires
        a % 256 == b % 256,
    ensures
        (a + c) % 256 == (b + c) % 256,
{
    assert(a - b == 256 * (a / 256 - b / 256));
    assert((a + c) - (b + c) == 256 * (a / 256 - b / 256));
    vstd::arithmetic::div_mod::lemma_mod_multiples_vanish(a / 256 - b / 256, b + c, 256);
}

/// Numbers with the same low eight bits keep them the same when both are
/// negated.
pub proof fn lemma_negated_residue(a: int, b: int)
    requires
        a % 256 == b % 256,
    ensures
        (-a) % 256 == (-b) % 256,
{
    assert(a - b == 256 * (a / 256 - b / 256));
    assert((-a) == 256 * (b / 256 - a / 256) + (-b));
    vstd::arithmetic::div_mod::lemma_mod_multiples_vanish(b / 256 - a / 256, -b, 256);
}

/// A difference of at most 127 either way shows its sign in its low eight bits.
pub proof fn lemma_sign(gap: int, lead: int)
    requires
        gap % 256 == lead % 256,
        -127 <= lead <= 127,
    ensures
        gap % 256 >= 128 <==> lead < 0,
        (-gap) % 256 >= 128 <==> lead > 0,
{
    lemma_negated_residue(gap, lead);
    if lead < 0 {
        assert(lead % 256 == lead + 256);
        assert((-lead) % 256 == -lead);
    } else if lead > 0 {
        assert(lead % 256 == lead);
        assert((-lead) % 256 == 256 - lead);
    } else {
        assert(lead % 256 == 0);
        assert((-lead) % 256 == 0);
    }
}

/// Two tasks that start with the same pass and always want to run share the
/// processor in inverse proportion to their strides, and so, but for the rounding
/// of the strides, in proportion to their priorities: after any number of turns,
/// what the one was given, its runs times its stride, differs from what the
/// other was given by one stride at most.
pub proof fn lemma_stride_fairness(priority: (u8, u8), pass: usize, front: int, n: nat)
    requires
        priority.0 >= 2,
        priority.1 >= 2,
        front == 0 || front == 1,
    ensures
        ({
            let end = Rivals::start(priority, pass, front).turns(n);
            &&& end.runs.0 + end.runs.1 == n
            &&& end.priority == priority
            &&& -(stride_of(priority.1) as int) <= end.runs.0 * stride_of(priority.0) - end.runs.1
                * stride_of(priority.1) <= stride_of(priority.0)
            &&& balanced(end)
        }),
    decreases n,
{
    let start = Rivals::start(priority, pass, front);
    if n == 0 {
        assert(start.lead() == 0) by (nonlinear_arith)
            requires
                start.lead() == 0 * stride_of(priority.0) - 0 * stride_of(priority.1),
        ;
    } else {
        lemma_stride_fairness(priority, pass, front, (n - 1) as nat);
        lemma_turn(start.turns((n - 1) as nat));
    }
}

} // verus!
