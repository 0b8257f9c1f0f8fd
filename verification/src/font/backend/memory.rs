//! Growth of a block of virtual memory.
//!
//! A block reserves addresses first and commits memory to them as it is
//! needed. What is here decides the next step towards a length; the owner of
//! the memory carries it out and reports back.
use crate::font::backend::arena::{align_up_to, ArenaResetMode};
#[allow(unused_imports)]
use crate::font::backend::arena::{aligned, law_aligned, saturated};
use vstd::prelude::*;

verus! {

/// The least that is reserved.
pub const MIN_RESERVE: usize = 0x10_0000;

/// The steps in which the system reserves and commits memory.
#[derive(Clone, Copy, Debug, PartialEq, Eq, Structural)]
pub struct VmGranularity {
    pub reserve: usize,
    pub commit: usize,
}

/// The larger of two numbers.
pub open spec fn larger(a: int, b: int) -> int {
    if a < b {
        b
    } else {
        a
    }
}

impl VmGranularity {
    /// From what the system reports. No step is below four KiB.
    pub fn of_system(allocation_granularity: u32, page_size: u32) -> (gran: VmGranularity)
        ensures
            gran.reserve == larger(allocation_granularity as int, 4096),
            gran.commit == larger(page_size as int, 4096),
    {
        let reserve: usize = if allocation_granularity < 4096 {
            4096
        } else {
            allocation_granularity as usize
        };
        let commit: usize = if page_size < 4096 {
            4096
        } else {
            page_size as usize
        };
        VmGranularity { reserve, commit }
    }

    pub open spec fn wf(self) -> bool {
        self.reserve > 0 && self.commit > 0
    }
}

/// What to do next.
#[derive(Clone, Copy, Debug, PartialEq, Eq, Structural)]
pub enum VmStep {
    /// The block is long enough.
    Enough,
    /// Reserve `reserve` bytes elsewhere, commit the first `commit` of them,
    /// copy the first `copy` bytes over, then release the old block.
    Move { reserve: usize, commit: usize, copy: usize },
    /// Release the block, then reserve `reserve` bytes.
    Replace { reserve: usize },
    /// Commit `len` bytes more, from `at` on.
    Commit { at: usize, len: usize },
}

/// A block of virtual memory, in numbers.
#[derive(Clone, Copy, Debug, PartialEq, Eq, Structural)]
pub struct VmBuffer {
    pub gran: VmGranularity,
    pub held: bool,
    pub reserved: usize,
    pub committed: usize,
}

impl VmBuffer {
    /// The bytes to reserve when the block is too short: twice what it has, or
    /// the least there is, or what is required, in whole steps.
    pub open spec fn next_reserve(self, required: usize) -> int {
        let roomy = if self.reserved == 0 {
            MIN_RESERVE as int
        } else {
            saturated(2 * self.reserved)
        };
        aligned(larger(roomy, required as int), self.gran.reserve as int)
    }

    /// What is committed, in whole steps.
    pub open spec fn whole(self, len: usize) -> int {
        aligned(len as int, self.gran.commit as int)
    }

    /// The next step towards `required` bytes.
    pub open spec fn step(self, required: usize, discard: bool) -> VmStep {
        if required <= self.committed {
            VmStep::Enough
        } else if required > self.reserved {
            if discard {
                VmStep::Replace { reserve: self.next_reserve(required) as usize }
            } else {
                VmStep::Move {
                    reserve: self.next_reserve(required) as usize,
                    commit: self.whole(self.committed) as usize,
                    copy: self.committed,
                }
            }
        } else {
            VmStep::Commit {
                at: self.committed,
                len: (self.whole(required) - self.committed) as usize,
            }
        }
    }

    /// The block after a step that succeeded.
    pub open spec fn after(self, step: VmStep) -> VmBuffer {
        match step {
            VmStep::Enough => self,
            VmStep::Move { reserve, commit, copy } => VmBuffer {
                held: true,
                reserved: reserve,
                committed: commit,
                ..self
            },
            VmStep::Replace { reserve } => VmBuffer {
                held: true,
                reserved: reserve,
                committed: 0,
                ..self
            },
            VmStep::Commit { at, len } => VmBuffer { committed: (at + len) as usize, ..self },
        }
    }

    /// A block without memory.
    pub fn new(gran: VmGranularity) -> (buffer: VmBuffer)
        ensures
            buffer == (VmBuffer { gran, held: false, reserved: 0, committed: 0 }),
    {
        VmBuffer { gran, held: false, reserved: 0, committed: 0 }
    }

    /// Decides the next step towards `required` bytes. Where the contents may
    /// be lost, a block that is too short is replaced, else it is moved.
    pub fn next_step(&self, required: usize, discard: bool) -> (step: VmStep)
        requires
            self.gran.wf(),
            self.next_reserve(required) <= usize::MAX,
            self.whole(required) <= usize::MAX,
            self.whole(self.committed) <= usize::MAX,
        ensures
            step == self.step(required, discard),
    {
        if required <= self.committed {
            return VmStep::Enough;
        }
        if required > self.reserved {
            let roomy: usize = if self.reserved == 0 {
                MIN_RESERVE
            } else {
                self.reserved.saturating_add(self.reserved)
            };
            let wanted: usize = if roomy < required {
                required
            } else {
                roomy
            };
            let reserve: usize = align_up_to(wanted, self.gran.reserve);
            if discard {
                return VmStep::Replace { reserve };
            }
            let commit: usize = align_up_to(self.committed, self.gran.commit);
            return VmStep::Move { reserve, commit, copy: self.committed };
        }
        let target: usize = align_up_to(required, self.gran.commit);
        proof {
            law_aligned(required as int, self.gran.commit as int);
        }
        VmStep::Commit { at: self.committed, len: target - self.committed }
    }

    /// Takes note of a step that succeeded.
    pub fn done(&mut self, step: VmStep)
        requires
            step matches VmStep::Commit { at, len } ==> at + len <= usize::MAX,
        ensures
            *final(self) == old(self).after(step),
    {
        match step {
            VmStep::Enough => {},
            VmStep::Move { reserve, commit, copy: _ } => {
                self.held = true;
                self.reserved = reserve;
                self.committed = commit;
            },
            VmStep::Replace { reserve } => {
                self.held = true;
                self.reserved = reserve;
                self.committed = 0;
            },
            VmStep::Commit { at, len } => {
                self.committed = at + len;
            },
        }
    }

    /// The memory was given back.
    pub fn release(&mut self)
        ensures
            *final(self) == (VmBuffer {
                held: false,
                reserved: if old(self).held {
                    0
                } else {
                    old(self).reserved
                },
                committed: if old(self).held {
                    0
                } else {
                    old(self).committed
                },
                ..*old(self)
            }),
    {
        if self.held {
            self.held = false;
            self.reserved = 0;
            self.committed = 0;
        }
    }

    /// Resets the block. The result is how many bytes, from the first on, are
    /// to be taken out of use while their addresses are kept; on
    /// [`ArenaResetMode::Release`] all of the block is to be given back.
    pub fn reset(&mut self, mode: ArenaResetMode) -> (decommit: usize)
        ensures
            mode is RetainCommitted ==> *final(self) == *old(self) && decommit == 0,
            mode is Decommit ==> {
                &&& decommit == if old(self).held {
                    old(self).committed
                } else {
                    0
                }
                &&& *final(self) == (VmBuffer {
                    committed: if old(self).held {
                        0
                    } else {
                        old(self).committed
                    },
                    ..*old(self)
                })
            },
            mode is Release ==> decommit == 0 && final(self).held == false && (old(self).held ==> (
            final(self).reserved == 0 && final(self).committed == 0)) && (!old(self).held
                ==> *final(self) == *old(self)) && final(self).gran == old(self).gran,
    {
        match mode {
            ArenaResetMode::RetainCommitted => 0,
            ArenaResetMode::Decommit => {
                if !self.held || self.committed == 0 {
                    return 0;
                }
                let decommit: usize = self.committed;
                self.committed = 0;
                decommit
            },
            ArenaResetMode::Release => {
                self.release();
                0
            },
        }
    }

    /// What is committed lies within what is reserved, and both come in whole
    /// steps.
    pub open spec fn wf(self) -> bool {
        &&& self.gran.wf()
        &&& self.gran.reserve as int % self.gran.commit as int == 0
        &&& self.reserved as int % self.gran.commit as int == 0
        &&& self.committed as int % self.gran.commit as int == 0
        &&& self.committed <= self.reserved
    }
}

proof fn lemma_step_of_steps(n: int, big: int, small: int)
    requires
        0 < big,
        0 < small,
        big % small == 0,
        n % big == 0,
    ensures
        n % small == 0,
{
    vstd::arithmetic::div_mod::lemma_fundamental_div_mod(n, big);
    vstd::arithmetic::div_mod::lemma_fundamental_div_mod(big, small);
    let k = (big / small) * (n / big);
    assert(n == small * k) by (nonlinear_arith)
        requires
            n == big * (n / big),
            big == small * (big / small),
            k == (big / small) * (n / big),
    ;
    vstd::arithmetic::div_mod::lemma_mod_multiples_basic(k, small);
    assert(k * small == small * k) by (nonlinear_arith);
}

proof fn lemma_aligned_below(v: int, step: int, bound: int)
    requires
        0 < step,
        0 <= v <= bound,
        bound % step == 0,
    ensures
        aligned(v, step) <= bound,
{
    law_aligned(v, step);
    let a = aligned(v, step);
    if a > bound {
        vstd::arithmetic::div_mod::lemma_fundamental_div_mod(a, step);
        vstd::arithmetic::div_mod::lemma_fundamental_div_mod(bound, step);
        assert(a - bound >= step) by (nonlinear_arith)
            requires
                a == step * (a / step),
                bound == step * (bound / step),
                a > bound,
                0 < step,
        ;
    }
}

/// Memory is committed only where it is reserved, whatever the steps.
pub proof fn law_commits_what_is_reserved(b: VmBuffer, required: usize, discard: bool)
    requires
        b.wf(),
        b.next_reserve(required) <= usize::MAX,
    ensures
        b.after(b.step(required, discard)).wf(),
        b.step(required, discard) matches VmStep::Move { reserve, commit, copy } ==> commit == copy
            && commit <= reserve,
        b.step(required, discard) matches VmStep::Commit { at, len } ==> at + len <= b.reserved,
{
    let commit = b.gran.commit as int;
    let roomy = if b.reserved == 0 {
        MIN_RESERVE as int
    } else {
        saturated(2 * b.reserved)
    };
    law_aligned(larger(roomy, required as int), b.gran.reserve as int);
    lemma_step_of_steps(b.next_reserve(required), b.gran.reserve as int, commit);
    law_aligned(required as int, commit);
    law_aligned(b.committed as int, commit);
    if required <= b.reserved {
        lemma_aligned_below(required as int, commit, b.reserved as int);
    }
    vstd::arithmetic::div_mod::lemma_small_mod(0, commit as nat);
}

/// Two steps that succeed reach the length: the first that reserves is the
/// last that does, and after a commit the block is long enough.
pub proof fn law_two_steps_suffice(b: VmBuffer, required: usize, discard: bool)
    requires
        b.wf(),
        b.next_reserve(required) <= usize::MAX,
    ensures
        ({
            let once = b.after(b.step(required, discard));
            let twice = once.after(once.step(required, discard));
            &&& required <= once.reserved
            &&& required <= twice.committed
            &&& twice.step(required, discard) is Enough
        }),
{
    law_commits_what_is_reserved(b, required, discard);
    let once = b.after(b.step(required, discard));
    let commit = b.gran.commit as int;
    let roomy = if b.reserved == 0 {
        MIN_RESERVE as int
    } else {
        saturated(2 * b.reserved)
    };
    law_aligned(larger(roomy, required as int), b.gran.reserve as int);
    law_aligned(required as int, commit);
    lemma_aligned_below(required as int, commit, once.reserved as int);
}

/// What is reserved is a whole number of steps: enough for what is required, at
/// least a MiB at first and twice as much as before later on, and no more than a
/// step above the most of these.
pub proof fn law_how_much_is_reserved(b: VmBuffer, required: usize)
    requires
        b.gran.wf(),
        2 * b.reserved <= usize::MAX,
    ensures
        ({
            let reserve = b.next_reserve(required);
            let least = if b.reserved == 0 {
                1024int * 1024
            } else {
                2 * b.reserved
            };
            &&& reserve % b.gran.reserve as int == 0
            &&& reserve >= required
            &&& reserve >= least
            &&& reserve < required + b.gran.reserve || reserve < least + b.gran.reserve
        }),
{
    let roomy = if b.reserved == 0 {
        MIN_RESERVE as int
    } else {
        saturated(2 * b.reserved)
    };
    law_aligned(larger(roomy, required as int), b.gran.reserve as int);
}

/// A block that has enough stays. One that has addresses enough gets memory from
/// where it ends, up to what is required and less than a step more. One that has
/// not goes elsewhere: with all that it holds, or, if its contents may be lost,
/// empty.
pub proof fn law_what_a_block_needs(b: VmBuffer, required: usize, discard: bool)
    requires
        b.wf(),
        b.next_reserve(required) <= usize::MAX,
    ensures
        ({
            let step = b.step(required, discard);
            let after = b.after(step);
            &&& required <= b.committed <==> step is Enough
            &&& step is Enough ==> after == b
            &&& b.committed < required <= b.reserved <==> step is Commit
            &&& step matches VmStep::Commit { at, len } ==> {
                &&& at == b.committed
                &&& required <= at + len < required + b.gran.commit
                &&& after.committed == at + len
                &&& after.reserved == b.reserved
            }
            &&& b.reserved < required && !discard <==> step is Move
            &&& step matches VmStep::Move { reserve, commit, copy } ==> {
                &&& copy == b.committed
                &&& after.committed == b.committed
                &&& after.reserved == reserve
                &&& reserve == b.next_reserve(required)
                &&& after.held
            }
            &&& b.reserved < required && discard <==> step is Replace
            &&& step matches VmStep::Replace { reserve } ==> {
                &&& after.committed == 0
                &&& after.reserved == reserve
                &&& reserve == b.next_reserve(required)
                &&& after.held
            }
            &&& after.gran == b.gran
        }),
{
    law_commits_what_is_reserved(b, required, discard);
    let commit = b.gran.commit as int;
    let roomy = if b.reserved == 0 {
        MIN_RESERVE as int
    } else {
        saturated(2 * b.reserved)
    };
    law_aligned(larger(roomy, required as int), b.gran.reserve as int);
    law_aligned(required as int, commit);
    law_aligned(b.committed as int, commit);
    if required <= b.reserved {
        lemma_aligned_below(required as int, commit, b.reserved as int);
    }
}

} // verus!
