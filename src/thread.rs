use vstd::prelude::*;
use crate::vv::VersionVec;

verus! {

/// Identity of one run; see [`crate::execution::IdSource`].
#[derive(Clone, Copy, Debug, PartialEq, Eq, Structural)]
pub struct Id(pub u64);

/// Runnability of a simulated thread.
#[derive(Clone, Copy, Debug, PartialEq, Eq, Structural)]
pub enum ThreadState {
    Runnable,
    /// Blocked on a condition that only the primitive owning it lifts.
    Blocked,
    /// Paused voluntarily for one scheduling round.
    Yield,
    /// The body has completed; no transition leaves this state.
    Terminated,
}

/// One logical unit of concurrency.
#[derive(Debug)]
pub struct Thread {
    pub id: usize,
    pub state: ThreadState,
    /// Set while the thread runs a primitive that must not be preempted.
    pub critical: bool,
    /// The shared object the thread is about to touch, if any.
    pub operation: Option<usize>,
    /// General happens-before knowledge.
    pub causality: VersionVec,
    /// Knowledge used by the scheduler to detect races.
    pub dpor_vv: VersionVec,
    /// Voluntary yields so far in this run.
    pub yield_count: usize,
}

impl Thread {
    pub fn new(id: usize, width: usize) -> (r: Thread)
        ensures
            r.id == id,
            r.state == ThreadState::Runnable,
            !r.critical,
            r.operation is None,
            r.causality@ == Seq::new(width as nat, |i: int| 0u64),
            r.dpor_vv@ == Seq::new(width as nat, |i: int| 0u64),
            r.yield_count == 0,
    {
        Thread {
            id,
            state: ThreadState::Runnable,
            critical: false,
            operation: None,
            causality: VersionVec::new(width),
            dpor_vv: VersionVec::new(width),
            yield_count: 0,
        }
    }

    pub fn is_runnable(&self) -> (r: bool)
        ensures
            r == (self.state == ThreadState::Runnable),
    {
        self.state == ThreadState::Runnable
    }

    pub fn is_yield(&self) -> (r: bool)
        ensures
            r == (self.state == ThreadState::Yield),
    {
        self.state == ThreadState::Yield
    }

    pub fn is_terminated(&self) -> (r: bool)
        ensures
            r == (self.state == ThreadState::Terminated),
    {
        self.state == ThreadState::Terminated
    }

    /// Makes the thread runnable again, unless it has terminated.
    pub fn set_runnable(&mut self)
        ensures
            final(self).state == (if old(self).state == ThreadState::Terminated {
                ThreadState::Terminated
            } else {
                ThreadState::Runnable
            }),
            final(self).id == old(self).id,
            final(self).critical == old(self).critical,
            final(self).operation == old(self).operation,
            final(self).causality@ == old(self).causality@,
            final(self).dpor_vv@ == old(self).dpor_vv@,
            final(self).yield_count == old(self).yield_count,
    {
        if self.state != ThreadState::Terminated {
            self.state = ThreadState::Runnable;
        }
    }

    /// Blocks the thread, unless it has terminated.
    pub fn set_blocked(&mut self)
        ensures
            final(self).state == (if old(self).state == ThreadState::Terminated {
                ThreadState::Terminated
            } else {
                ThreadState::Blocked
            }),
            final(self).id == old(self).id,
            final(self).critical == old(self).critical,
            final(self).operation == old(self).operation,
            final(self).causality@ == old(self).causality@,
            final(self).dpor_vv@ == old(self).dpor_vv@,
            final(self).yield_count == old(self).yield_count,
    {
        if self.state != ThreadState::Terminated {
            self.state = ThreadState::Blocked;
        }
    }

    /// Pauses the thread for one round and counts the yield, unless it has
    /// terminated. The count stops at its largest value.
    pub fn set_yield(&mut self)
        ensures
            old(self).state == ThreadState::Terminated ==> final(self).state == ThreadState::Terminated
                && final(self).yield_count == old(self).yield_count,
            old(self).state != ThreadState::Terminated ==> final(self).state == ThreadState::Yield
                && final(self).yield_count == (if old(self).yield_count < usize::MAX {
                    old(self).yield_count + 1
                } else {
                    old(self).yield_count as int
                }),
            final(self).id == old(self).id,
            final(self).critical == old(self).critical,
            final(self).operation == old(self).operation,
            final(self).causality@ == old(self).causality@,
            final(self).dpor_vv@ == old(self).dpor_vv@,
    {
        if self.state != ThreadState::Terminated {
            self.state = ThreadState::Yield;
            if self.yield_count < usize::MAX {
                self.yield_count = self.yield_count + 1;
            }
        }
    }

    /// Marks the body as completed.
    pub fn set_terminated(&mut self)
        ensures
            final(self).state == ThreadState::Terminated,
            final(self).id == old(self).id,
            final(self).critical == old(self).critical,
            final(self).operation == old(self).operation,
            final(self).causality@ == old(self).causality@,
            final(self).dpor_vv@ == old(self).dpor_vv@,
            final(self).yield_count == old(self).yield_count,
    {
        self.state = ThreadState::Terminated;
    }
}

} // verus!
