use vstd::prelude::*;
use crate::thread::Id;
use crate::vv::{le_spec, VersionVec};

verus! {

/// One recorded touch of a shared object: the branch position at which it
/// happened and the acting thread's scheduling clock at that moment.
#[derive(Debug)]
pub struct Access {
    pub path_id: usize,
    pub dpor_vv: VersionVec,
}

impl Access {
    pub fn new(path_id: usize, vv: &VersionVec) -> (r: Access)
        ensures
            r.path_id == path_id,
            r.dpor_vv@ == vv@,
    {
        Access { path_id, dpor_vv: vv.copy() }
    }

    pub fn path_id(&self) -> (r: usize)
        ensures
            r == self.path_id,
    {
        self.path_id
    }

    /// Whether this access is causally ordered before the knowledge `vv`.
    pub fn happens_before(&self, vv: &VersionVec) -> (r: bool)
        requires
            self.dpor_vv@.len() == vv@.len(),
        ensures
            r == le_spec(self.dpor_vv@, vv@),
    {
        self.dpor_vv.le(vv)
    }

    pub fn copy(&self) -> (r: Access)
        ensures
            r.path_id == self.path_id,
            r.dpor_vv@ == self.dpor_vv@,
    {
        Access { path_id: self.path_id, dpor_vv: self.dpor_vv.copy() }
    }
}

/// Bookkeeping for one tracked object.
#[derive(Debug)]
pub struct Entry {
    /// The latest access; every operation on an object depends on it.
    pub last: Option<Access>,
    pub released: bool,
}

/// The tracked objects of one run, indexed by the handle that created them.
#[derive(Debug)]
pub struct Store {
    pub execution_id: Id,
    pub entries: Vec<Entry>,
}

/// Errors of the leak audit.
#[derive(Clone, Copy, Debug, PartialEq, Eq, Structural)]
pub enum LeakError {
    /// The object with this handle was never released.
    Leaked(usize),
}

impl Store {
    /// Every recorded clock has `width` slots.
    pub open spec fn wf(&self, width: nat) -> bool {
        forall|i: int| 0 <= i < self.entries@.len() && (#[trigger] self.entries@[i]).last is Some
            ==> self.entries@[i].last.unwrap().dpor_vv@.len() == width
    }

    /// The latest access recorded for `op`, if any.
    pub open spec fn last_spec(&self, op: usize) -> Option<Access> {
        if op < self.entries@.len() {
            self.entries@[op as int].last
        } else {
            None
        }
    }

    /// Index of the first object not yet released, scanning from `from`.
    pub open spec fn first_leak(&self, from: int) -> Option<usize>
        decreases self.entries@.len() - from,
    {
        if from < 0 || from >= self.entries@.len() {
            None
        } else if !self.entries@[from].released {
            Some(from as usize)
        } else {
            self.first_leak(from + 1)
        }
    }

    pub fn new(id: Id) -> (r: Store)
        ensures
            r.execution_id == id,
            r.entries@.len() == 0,
    {
        Store { execution_id: id, entries: Vec::new() }
    }

    /// Forgets every object, ready for the run `id`.
    pub fn clear(&mut self, id: Id)
        ensures
            final(self).execution_id == id,
            final(self).entries@.len() == 0,
    {
        self.entries.clear();
        self.execution_id = id;
    }

    pub fn len(&self) -> (r: usize)
        ensures
            r == self.entries@.len(),
    {
        self.entries.len()
    }

    /// Starts tracking a new object and returns its handle.
    pub fn create(&mut self) -> (r: usize)
        requires
            old(self).entries@.len() < usize::MAX,
        ensures
            r == old(self).entries@.len(),
            final(self).execution_id == old(self).execution_id,
            final(self).entries@.len() == old(self).entries@.len() + 1,
            forall|i: int| 0 <= i < r ==> #[trigger] final(self).entries@[i] == old(self).entries@[i],
            final(self).entries@[r as int].last is None,
            !final(self).entries@[r as int].released,
    {
        let r = self.entries.len();
        self.entries.push(Entry { last: None, released: false });
        r
    }

    /// Marks the object `op` as properly released.
    pub fn release(&mut self, op: usize)
        requires
            op < old(self).entries@.len(),
        ensures
            final(self).execution_id == old(self).execution_id,
            final(self).entries@.len() == old(self).entries@.len(),
            forall|i: int| 0 <= i < old(self).entries@.len() && i != op ==>
                #[trigger] final(self).entries@[i] == old(self).entries@[i],
            final(self).entries@[op as int].released,
            final(self).entries@[op as int].last == old(self).entries@[op as int].last,
    {
        let e = &mut self.entries[op];
        e.released = true;
    }

    /// The most recent accesses that an operation on `op` depends on.
    pub fn last_dependent_accesses(&self, op: usize) -> (r: Vec<Access>)
        ensures
            r@.len() == (if self.last_spec(op) is Some { 1int } else { 0 }),
            r@.len() == 1 ==> r@[0].path_id == self.last_spec(op).unwrap().path_id
                && r@[0].dpor_vv@ == self.last_spec(op).unwrap().dpor_vv@,
    {
        let mut r: Vec<Access> = Vec::new();
        if op < self.entries.len() {
            match &self.entries[op].last {
                Some(a) => r.push(a.copy()),
                None => {},
            }
        }
        r
    }

    /// Records `access` as the latest touch of `op`.
    pub fn set_last_access(&mut self, op: usize, access: Access)
        ensures
            final(self).execution_id == old(self).execution_id,
            final(self).entries@.len() == old(self).entries@.len(),
            forall|i: int| 0 <= i < old(self).entries@.len() && i != op ==>
                #[trigger] final(self).entries@[i] == old(self).entries@[i],
            op < old(self).entries@.len() ==> final(self).entries@[op as int].last == Some(access)
                && final(self).entries@[op as int].released == old(self).entries@[op as int].released,
    {
        if op < self.entries.len() {
            let e = &mut self.entries[op];
            e.last = Some(access);
        }
    }

    /// Fails, naming the first such object, if any tracked object was not released.
    pub fn check_for_leaks(&self) -> (r: Result<(), LeakError>)
        ensures
            r == (match self.first_leak(0) {
                Some(i) => Err(LeakError::Leaked(i)),
                None => Ok(()),
            }),
    {
        let mut k: usize = 0;
        while k < self.entries.len()
            invariant
                k <= self.entries@.len(),
                self.first_leak(0) == self.first_leak(k as int),
            decreases self.entries@.len() - k,
        {
            if !self.entries[k].released {
                return Err(LeakError::Leaked(k));
            }
            k = k + 1;
        }
        Ok(())
    }
}

} // verus!
