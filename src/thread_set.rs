use vstd::prelude::*;
use crate::thread::{Id, Thread, ThreadState};

verus! {

/// The simulated threads of one run, densely indexed by their identifiers.
#[derive(Debug)]
pub struct ThreadSet {
    pub execution_id: Id,
    pub threads: Vec<Thread>,
    pub active: Option<usize>,
    pub max_threads: usize,
}

impl ThreadSet {
    /// Each thread sits at its own index with clocks one slot per allowed
    /// thread, and the active thread, if any, exists.
    pub open spec fn wf(&self) -> bool {
        &&& 1 <= self.max_threads
        &&& 1 <= self.threads@.len() <= self.max_threads
        &&& self.active is Some ==> self.active.unwrap() < self.threads@.len()
        &&& forall|i: int| 0 <= i < self.threads@.len() ==> {
            &&& (#[trigger] self.threads@[i]).id == i
            &&& self.threads@[i].causality@.len() == self.max_threads
            &&& self.threads@[i].dpor_vv@.len() == self.max_threads
        }
    }

    /// The state at the start of a run: one runnable thread, active, that
    /// knows of nothing yet.
    pub open spec fn is_fresh(&self, id: Id) -> bool {
        &&& self.execution_id == id
        &&& self.threads@.len() == 1
        &&& self.active == Some(0usize)
        &&& self.threads@[0].state == ThreadState::Runnable
        &&& !self.threads@[0].critical
        &&& self.threads@[0].operation is None
        &&& self.threads@[0].yield_count == 0
        &&& self.threads@[0].causality@ == Seq::new(self.max_threads as nat, |i: int| 0u64)
        &&& self.threads@[0].dpor_vv@ == Seq::new(self.max_threads as nat, |i: int| 0u64)
    }

    pub fn new(id: Id, max_threads: usize) -> (r: ThreadSet)
        requires
            max_threads >= 1,
        ensures
            r.wf(),
            r.max_threads == max_threads,
            r.is_fresh(id),
    {
        let mut threads: Vec<Thread> = Vec::new();
        threads.push(Thread::new(0, max_threads));
        ThreadSet { execution_id: id, threads, active: Some(0), max_threads }
    }

    /// Starts the set over for the run `id`.
    pub fn clear(&mut self, id: Id)
        requires
            old(self).wf(),
        ensures
            final(self).wf(),
            final(self).max_threads == old(self).max_threads,
            final(self).is_fresh(id),
    {
        self.threads.clear();
        self.threads.push(Thread::new(0, self.max_threads));
        self.active = Some(0);
        self.execution_id = id;
    }

    pub fn len(&self) -> (r: usize)
        ensures
            r == self.threads@.len(),
    {
        self.threads.len()
    }

    /// Adds a runnable thread with empty clocks; `None` where the set is full.
    pub fn new_thread(&mut self) -> (r: Option<usize>)
        requires
            old(self).wf(),
        ensures
            final(self).wf(),
            final(self).max_threads == old(self).max_threads,
            final(self).execution_id == old(self).execution_id,
            final(self).active == old(self).active,
            r is None <==> old(self).threads@.len() == old(self).max_threads,
            r is None ==> final(self).threads@ == old(self).threads@,
            r is Some ==> {
                &&& r.unwrap() == old(self).threads@.len()
                &&& final(self).threads@.len() == old(self).threads@.len() + 1
                &&& final(self).threads@.subrange(0, r.unwrap() as int) == old(self).threads@
                &&& final(self).threads@[r.unwrap() as int].state == ThreadState::Runnable
                &&& final(self).threads@[r.unwrap() as int].operation is None
                &&& !final(self).threads@[r.unwrap() as int].critical
                &&& final(self).threads@[r.unwrap() as int].yield_count == 0
                &&& final(self).threads@[r.unwrap() as int].causality@ == Seq::new(
                    old(self).max_threads as nat,
                    |i: int| 0u64,
                )
                &&& final(self).threads@[r.unwrap() as int].dpor_vv@ == Seq::new(
                    old(self).max_threads as nat,
                    |i: int| 0u64,
                )
            },
    {
        let n = self.threads.len();
        if n >= self.max_threads {
            return None;
        }
        self.threads.push(Thread::new(n, self.max_threads));
        assert(self.threads@.subrange(0, n as int) =~= old(self).threads@);
        Some(n)
    }

    pub fn active_id(&self) -> (r: Option<usize>)
        ensures
            r == self.active,
    {
        self.active
    }

    pub fn is_active(&self) -> (r: bool)
        ensures
            r == self.active is Some,
    {
        self.active.is_some()
    }

    pub fn set_active(&mut self, next: Option<usize>)
        requires
            old(self).wf(),
            next is Some ==> next.unwrap() < old(self).threads@.len(),
        ensures
            final(self).wf(),
            final(self).active == next,
            final(self).threads == old(self).threads,
            final(self).max_threads == old(self).max_threads,
            final(self).execution_id == old(self).execution_id,
    {
        self.active = next;
    }

    /// Sets the state of thread `i`; a terminated thread stays terminated.
    pub fn set_state(&mut self, i: usize, s: ThreadState)
        requires
            old(self).wf(),
            i < old(self).threads@.len(),
        ensures
            final(self).wf(),
            final(self).active == old(self).active,
            final(self).max_threads == old(self).max_threads,
            final(self).execution_id == old(self).execution_id,
            final(self).threads@.len() == old(self).threads@.len(),
            forall|j: int| 0 <= j < old(self).threads@.len() && j != i ==>
                #[trigger] final(self).threads@[j] == old(self).threads@[j],
            final(self).threads@[i as int].state == (if old(self).threads@[i as int].state
                == ThreadState::Terminated {
                ThreadState::Terminated
            } else {
                s
            }),
            final(self).threads@[i as int].operation == old(self).threads@[i as int].operation,
            final(self).threads@[i as int].critical == old(self).threads@[i as int].critical,
            final(self).threads@[i as int].causality@ == old(self).threads@[i as int].causality@,
            final(self).threads@[i as int].dpor_vv@ == old(self).threads@[i as int].dpor_vv@,
            s == ThreadState::Yield && old(self).threads@[i as int].state != ThreadState::Terminated
                ==> final(self).threads@[i as int].yield_count == (if old(self).threads@[i as int].yield_count
                < usize::MAX {
                old(self).threads@[i as int].yield_count + 1
            } else {
                old(self).threads@[i as int].yield_count as int
            }),
            !(s == ThreadState::Yield && old(self).threads@[i as int].state != ThreadState::Terminated)
                ==> final(self).threads@[i as int].yield_count == old(self).threads@[i as int].yield_count,
    {
        let th = &mut self.threads[i];
        match s {
            ThreadState::Runnable => th.set_runnable(),
            ThreadState::Blocked => th.set_blocked(),
            ThreadState::Yield => th.set_yield(),
            ThreadState::Terminated => th.set_terminated(),
        }
    }

    /// Records the shared object that thread `i` is about to touch.
    pub fn set_operation(&mut self, i: usize, op: Option<usize>)
        requires
            old(self).wf(),
            i < old(self).threads@.len(),
        ensures
            final(self).wf(),
            final(self).active == old(self).active,
            final(self).max_threads == old(self).max_threads,
            final(self).execution_id == old(self).execution_id,
            final(self).threads@.len() == old(self).threads@.len(),
            forall|j: int| 0 <= j < old(self).threads@.len() && j != i ==>
                #[trigger] final(self).threads@[j] == old(self).threads@[j],
            final(self).threads@[i as int].operation == op,
            final(self).threads@[i as int].state == old(self).threads@[i as int].state,
            final(self).threads@[i as int].critical == old(self).threads@[i as int].critical,
            final(self).threads@[i as int].yield_count == old(self).threads@[i as int].yield_count,
            final(self).threads@[i as int].causality@ == old(self).threads@[i as int].causality@,
            final(self).threads@[i as int].dpor_vv@ == old(self).threads@[i as int].dpor_vv@,
    {
        let th = &mut self.threads[i];
        th.operation = op;
    }

    /// Sets or clears the critical-section flag of thread `i`.
    pub fn set_critical(&mut self, i: usize, critical: bool)
        requires
            old(self).wf(),
            i < old(self).threads@.len(),
        ensures
            final(self).wf(),
            final(self).active == old(self).active,
            final(self).max_threads == old(self).max_threads,
            final(self).execution_id == old(self).execution_id,
            final(self).threads@.len() == old(self).threads@.len(),
            forall|j: int| 0 <= j < old(self).threads@.len() && j != i ==>
                #[trigger] final(self).threads@[j] == old(self).threads@[j],
            final(self).threads@[i as int].critical == critical,
            final(self).threads@[i as int].operation == old(self).threads@[i as int].operation,
            final(self).threads@[i as int].state == old(self).threads@[i as int].state,
            final(self).threads@[i as int].yield_count == old(self).threads@[i as int].yield_count,
            final(self).threads@[i as int].causality@ == old(self).threads@[i as int].causality@,
            final(self).threads@[i as int].dpor_vv@ == old(self).threads@[i as int].dpor_vv@,
    {
        let th = &mut self.threads[i];
        th.critical = critical;
    }
}

} // verus!
