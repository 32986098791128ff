use vstd::prelude::*;

verus! {

/// How one thread stands at one branch position.
#[derive(Clone, Copy, Debug, PartialEq, Eq, Structural)]
pub enum Mark {
    /// Chosen to run at this position.
    Active,
    /// Paused voluntarily this round.
    Yield,
    /// Blocked; cannot be chosen.
    Disabled,
    /// Could run, but another was chosen; not to be explored.
    Skip,
    /// Could run, and a later permutation must choose it here.
    Pending,
    /// Was chosen here by an earlier permutation.
    Visited,
}

/// One branch position: the mark of every thread, and the number of
/// preemptions on the way to it.
#[derive(Debug)]
pub struct Schedule {
    pub marks: Vec<Mark>,
    pub preemptions: usize,
}

/// Error of the branch ledger.
#[derive(Clone, Copy, Debug, PartialEq, Eq, Structural)]
pub enum PathError {
    /// A run took more branch decisions than allowed.
    BranchLimit,
}

/// The decision log of the whole search: which thread was chosen at each
/// branch position of the current permutation, which others are still owed a
/// turn there, and how far the current run has replayed.
#[derive(Debug)]
pub struct Path {
    pub branches: Vec<Schedule>,
    pub pos: usize,
    pub max_branches: usize,
    pub preemption_bound: Option<usize>,
}

/// Index of the first thread marked `m` at or after `from`.
pub open spec fn first_mark(marks: Seq<Mark>, m: Mark, from: int) -> Option<usize>
    decreases marks.len() - from,
{
    if from < 0 || from >= marks.len() {
        None
    } else if marks[from] == m {
        Some(from as usize)
    } else {
        first_mark(marks, m, from + 1)
    }
}

/// The thread a fresh position chooses: the one marked active, or failing
/// that the first that yielded.
pub open spec fn pick(marks: Seq<Mark>) -> Option<usize> {
    match first_mark(marks, Mark::Active, 0) {
        Some(i) => Some(i),
        None => first_mark(marks, Mark::Yield, 0),
    }
}

/// The marks a fresh position records: where none is active, the first that
/// yielded becomes active.
pub open spec fn seeded(marks: Seq<Mark>) -> Seq<Mark> {
    if first_mark(marks, Mark::Active, 0) is None && first_mark(marks, Mark::Yield, 0) is Some {
        marks.update(first_mark(marks, Mark::Yield, 0).unwrap() as int, Mark::Active)
    } else {
        marks
    }
}

/// The marks after thread `th` is owed a turn: it becomes pending if it
/// was skipped; if it was blocked, every skipped thread does.
pub open spec fn owed(marks: Seq<Mark>, th: int) -> Seq<Mark> {
    Seq::new(
        marks.len(),
        |j: int|
            if marks[j] == Mark::Skip && (j == th || marks[th] == Mark::Disabled) {
                Mark::Pending
            } else {
                marks[j]
            },
    )
}

/// The marks when the pending thread `p` takes its turn.
pub open spec fn advanced(marks: Seq<Mark>, p: int) -> Seq<Mark> {
    Seq::new(
        marks.len(),
        |j: int|
            if j == p {
                Mark::Active
            } else if marks[j] == Mark::Active {
                Mark::Visited
            } else {
                marks[j]
            },
    )
}

/// Whether some thread is still owed a turn at one of the first `n` positions.
pub open spec fn has_pending(b: Seq<Schedule>, n: int) -> bool {
    exists|i: int, j: int|
        0 <= i < n && 0 <= j < b[i].marks@.len() && #[trigger] b[i].marks@[j] == Mark::Pending
}

/// `after` is `before` moved to the next permutation: the deepest position
/// `k` that owes a turn gives it to its first pending thread, and the
/// positions after `k` are forgotten.
pub open spec fn stepped(before: Seq<Schedule>, after: Seq<Schedule>) -> bool {
    exists|k: int| {
        &&& 0 <= k < before.len()
        &&& after.len() == k + 1
        &&& first_mark(before[k].marks@, Mark::Pending, 0) is Some
        &&& forall|i: int| k < i < before.len() ==> first_mark(
            #[trigger] before[i].marks@, Mark::Pending, 0) is None
        &&& forall|i: int| 0 <= i < k ==> #[trigger] after[i] == before[i]
        &&& after[k].preemptions == before[k].preemptions
        &&& after[k].marks@ == advanced(
            before[k].marks@,
            first_mark(before[k].marks@, Mark::Pending, 0).unwrap() as int,
        )
    }
}

/// The preemptions on the way to a fresh position that records `marks`:
/// those of the position before it, plus one where the thread chosen there
/// is skipped here.
pub open spec fn preemptions_of(branches: Seq<Schedule>, marks: Seq<Mark>) -> int {
    if branches.len() == 0 {
        0
    } else {
        let prev = branches[branches.len() - 1];
        let p = first_mark(prev.marks@, Mark::Active, 0);
        if p is Some && p.unwrap() < marks.len() && marks[p.unwrap() as int] == Mark::Skip {
            prev.preemptions + 1
        } else {
            prev.preemptions as int
        }
    }
}

pub proof fn lemma_first_mark_found(marks: Seq<Mark>, m: Mark, from: int)
    requires
        0 <= from,
        marks.len() <= usize::MAX,
    ensures
        first_mark(marks, m, from) is Some ==> {
            let i = first_mark(marks, m, from).unwrap() as int;
            from <= i < marks.len() && marks[i] == m && forall|j: int| from <= j < i ==> marks[j] != m
        },
        first_mark(marks, m, from) is None ==> forall|j: int| from <= j < marks.len() ==> marks[j] != m,
    decreases marks.len() - from,
{
    if from < marks.len() && marks[from] != m {
        lemma_first_mark_found(marks, m, from + 1);
    }
}

proof fn lemma_find_in_vec(v: &Vec<Mark>, m: Mark)
    ensures
        first_mark(v@, m, 0) is Some ==> {
            let i = first_mark(v@, m, 0).unwrap() as int;
            0 <= i < v@.len() && v@[i] == m && forall|j: int| 0 <= j < i ==> v@[j] != m
        },
        first_mark(v@, m, 0) is None ==> forall|j: int| 0 <= j < v@.len() ==> v@[j] != m,
{
    assert(v@.len() == v.len());
    lemma_first_mark_found(v@, m, 0);
}

/// Two mark sequences with the same active entries choose the same thread.
proof fn lemma_first_active_same(a: Seq<Mark>, b: Seq<Mark>)
    requires
        a.len() == b.len(),
        a.len() <= usize::MAX,
        forall|j: int| 0 <= j < a.len() ==> (a[j] == Mark::Active <==> b[j] == Mark::Active),
    ensures
        first_mark(a, Mark::Active, 0) == first_mark(b, Mark::Active, 0),
{
    lemma_first_mark_found(a, Mark::Active, 0);
    lemma_first_mark_found(b, Mark::Active, 0);
}

/// Index of the first thread marked `m`.
pub fn find_mark(marks: &Vec<Mark>, m: Mark) -> (r: Option<usize>)
    ensures
        r == first_mark(marks@, m, 0),
{
    let mut k: usize = 0;
    while k < marks.len()
        invariant
            k <= marks@.len(),
            first_mark(marks@, m, 0) == first_mark(marks@, m, k as int),
        decreases marks@.len() - k,
    {
        if marks[k] == m {
            return Some(k);
        }
        k = k + 1;
    }
    None
}

/// Gives the pending thread `p` its turn: it becomes active and the thread
/// active so far becomes visited.
fn advance(marks: &mut Vec<Mark>, p: usize)
    requires
        p < old(marks)@.len(),
    ensures
        final(marks)@ == advanced(old(marks)@, p as int),
{
    let n = marks.len();
    let mut k: usize = 0;
    while k < n
        invariant
            n == old(marks)@.len(),
            marks@.len() == n,
            p < n,
            k <= n,
            forall|j: int| 0 <= j < k ==> #[trigger] marks@[j] == advanced(old(marks)@, p as int)[j],
            forall|j: int| k <= j < n ==> #[trigger] marks@[j] == old(marks)@[j],
        decreases n - k,
    {
        if k == p {
            marks.set(k, Mark::Active);
        } else if marks[k] == Mark::Active {
            marks.set(k, Mark::Visited);
        }
        k = k + 1;
    }
    assert(marks@ =~= advanced(old(marks)@, p as int));
}

/// Owes thread `th` a turn in `marks`; see [`owed`].
fn owe(marks: &mut Vec<Mark>, th: usize)
    requires
        th < old(marks)@.len(),
    ensures
        final(marks)@ == owed(old(marks)@, th as int),
{
    let n = marks.len();
    let all = marks[th] == Mark::Disabled;
    let mut k: usize = 0;
    while k < n
        invariant
            n == old(marks)@.len(),
            marks@.len() == n,
            th < n,
            all == (old(marks)@[th as int] == Mark::Disabled),
            k <= n,
            forall|j: int| 0 <= j < k ==> #[trigger] marks@[j] == owed(old(marks)@, th as int)[j],
            forall|j: int| k <= j < n ==> #[trigger] marks@[j] == old(marks)@[j],
        decreases n - k,
    {
        if marks[k] == Mark::Skip && (k == th || all) {
            marks.set(k, Mark::Pending);
        }
        k = k + 1;
    }
    assert(marks@ =~= owed(old(marks)@, th as int));
}

impl Path {
    pub open spec fn wf(&self) -> bool {
        &&& self.pos <= self.branches@.len() <= self.max_branches
        &&& forall|i: int| 0 <= i < self.branches@.len() ==> (#[trigger] self.branches@[i]).preemptions <= i
    }

    /// The thread chosen at the current position, given the marks that the
    /// scheduler proposes: a recorded position replays its choice.
    pub open spec fn select(&self, marks: Seq<Mark>) -> Option<usize> {
        if self.pos < self.branches@.len() {
            first_mark(self.branches@[self.pos as int].marks@, Mark::Active, 0)
        } else {
            pick(marks)
        }
    }

    /// Whether the next decision would exceed the branch limit.
    pub open spec fn at_limit(&self) -> bool {
        self.pos == self.branches@.len() && self.branches@.len() >= self.max_branches
    }

    /// The choice recorded at every position, which owed turns do not change.
    pub open spec fn same_choices(&self, other: &Path) -> bool {
        &&& self.pos == other.pos
        &&& self.max_branches == other.max_branches
        &&& self.preemption_bound == other.preemption_bound
        &&& self.branches@.len() == other.branches@.len()
        &&& forall|i: int| 0 <= i < self.branches@.len() ==>
            first_mark(#[trigger] self.branches@[i].marks@, Mark::Active, 0) == first_mark(
                other.branches@[i].marks@,
                Mark::Active,
                0,
            )
    }

    pub fn new(max_branches: usize, preemption_bound: Option<usize>) -> (r: Path)
        ensures
            r.wf(),
            r.branches@.len() == 0,
            r.pos == 0,
            r.max_branches == max_branches,
            r.preemption_bound == preemption_bound,
    {
        Path { branches: Vec::new(), pos: 0, max_branches, preemption_bound }
    }


    /// Decides the thread to run at the current position and moves past it.
    /// A position reached for the first time records `marks` (see
    /// [`seeded`]); one recorded by an earlier permutation replays its
    /// choice. Fails where a fresh position would exceed the branch limit.
    pub fn branch_thread(&mut self, marks: Vec<Mark>) -> (r: Result<Option<usize>, PathError>)
        requires
            old(self).wf(),
        ensures
            final(self).wf(),
            final(self).max_branches == old(self).max_branches,
            final(self).preemption_bound == old(self).preemption_bound,
            old(self).at_limit() ==> r == Err::<Option<usize>, PathError>(PathError::BranchLimit)
                && *final(self) == *old(self),
            !old(self).at_limit() ==> {
                &&& r == Ok::<Option<usize>, PathError>(old(self).select(marks@))
                &&& final(self).pos == old(self).pos + 1
                &&& forall|i: int| 0 <= i < old(self).branches@.len() ==>
                    #[trigger] final(self).branches@[i] == old(self).branches@[i]
                &&& old(self).pos == old(self).branches@.len() ==> {
                    &&& final(self).branches@.len() == old(self).branches@.len() + 1
                    &&& final(self).branches@[old(self).pos as int].marks@ == seeded(marks@)
                    &&& final(self).branches@[old(self).pos as int].preemptions == preemptions_of(
                        old(self).branches@,
                        seeded(marks@),
                    )
                }
                &&& old(self).pos < old(self).branches@.len() ==> final(self).branches@.len()
                    == old(self).branches@.len()
            },
    {
        if self.pos == self.branches.len() {
            if self.branches.len() >= self.max_branches {
                return Err(PathError::BranchLimit);
            }
            let mut m = marks;
            proof {
                lemma_find_in_vec(&m, Mark::Active);
                lemma_find_in_vec(&m, Mark::Yield);
            }
            if find_mark(&m, Mark::Active).is_none() {
                match find_mark(&m, Mark::Yield) {
                    Some(y) => m.set(y, Mark::Active),
                    None => {},
                }
            }
            assert(m@ == seeded(marks@));
            proof {
                lemma_find_in_vec(&m, Mark::Active);
                if first_mark(marks@, Mark::Active, 0) is None && first_mark(marks@, Mark::Yield, 0) is Some {
                    let y = first_mark(marks@, Mark::Yield, 0).unwrap() as int;
                    assert(m@[y] == Mark::Active);
                    assert forall|j: int| 0 <= j < y implies m@[j] != Mark::Active by {
                        assert(m@[j] == marks@[j]);
                    }
                }
            }
            assert(first_mark(m@, Mark::Active, 0) == pick(marks@));
            let n = self.branches.len();
            let mut preemptions: usize = 0;
            if n > 0 {
                let prev = &self.branches[n - 1];
                preemptions = prev.preemptions;
                match find_mark(&prev.marks, Mark::Active) {
                    Some(p) => {
                        if p < m.len() && m[p] == Mark::Skip {
                            preemptions = preemptions + 1;
                        }
                    },
                    None => {},
                }
            }
            self.branches.push(Schedule { marks: m, preemptions });
        }
        let sel = find_mark(&self.branches[self.pos].marks, Mark::Active);
        self.pos = self.pos + 1;
        Ok(sel)
    }

    /// Owes thread `th` a turn at the earlier position `at`, so that a later
    /// permutation runs it there. Dropped where `at` or `th` is out of range,
    /// or where the position already carries as many preemptions as the bound
    /// allows.
    pub fn backtrack(&mut self, at: usize, th: usize)
        requires
            old(self).wf(),
        ensures
            final(self).wf(),
            final(self).same_choices(old(self)),
            forall|i: int| 0 <= i < old(self).branches@.len() && i != at ==>
                #[trigger] final(self).branches@[i] == old(self).branches@[i],
            at < old(self).branches@.len() ==> {
                let b = old(self).branches@[at as int];
                let dropped = th >= b.marks@.len() || (old(self).preemption_bound is Some
                    && b.preemptions >= old(self).preemption_bound.unwrap());
                &&& final(self).branches@[at as int].preemptions == b.preemptions
                &&& final(self).branches@[at as int].marks@ == (if dropped {
                    b.marks@
                } else {
                    owed(b.marks@, th as int)
                })
            },
    {
        if at >= self.branches.len() {
            return;
        }
        if th >= self.branches[at].marks.len() {
            return;
        }
        match self.preemption_bound {
            Some(bound) => {
                if self.branches[at].preemptions >= bound {
                    return;
                }
            },
            None => {},
        }
        let ghost before = self.branches@[at as int].marks@;
        let sch = &mut self.branches[at];
        owe(&mut sch.marks, th);
        proof {
            let after = self.branches@[at as int].marks@;
            assert forall|j: int| 0 <= j < after.len() implies (after[j] == Mark::Active <==> before[j] == Mark::Active) by {}
            lemma_first_active_same(after, before);
            assert forall|i: int| 0 <= i < self.branches@.len() implies
                first_mark(#[trigger] self.branches@[i].marks@, Mark::Active, 0) == first_mark(
                    old(self).branches@[i].marks@, Mark::Active, 0) by {
                if i != at {
                    assert(self.branches@[i] == old(self).branches@[i]);
                }
            }
        }
    }

    /// Moves to the next permutation: the deepest position that still owes a
    /// thread a turn gives it that turn, the positions after it are forgotten,
    /// and replay starts from the first position. Returns `false`, with
    /// nothing left to replay, once no position owes a turn.
    pub fn step(&mut self) -> (r: bool)
        requires
            old(self).wf(),
        ensures
            final(self).wf(),
            final(self).pos == 0,
            final(self).max_branches == old(self).max_branches,
            final(self).preemption_bound == old(self).preemption_bound,
            r == has_pending(old(self).branches@, old(self).branches@.len() as int),
            !r ==> final(self).branches@.len() == 0,
            r ==> stepped(old(self).branches@, final(self).branches@),
    {
        self.pos = 0;
        while self.branches.len() > 0
            invariant
                self.wf(),
                self.pos == 0,
                self.max_branches == old(self).max_branches,
                self.preemption_bound == old(self).preemption_bound,
                self.branches@.len() <= old(self).branches@.len(),
                forall|i: int| 0 <= i < self.branches@.len() ==> #[trigger] self.branches@[i] == old(self).branches@[i],
                forall|i: int| self.branches@.len() <= i < old(self).branches@.len() ==> first_mark(
                    #[trigger] old(self).branches@[i].marks@, Mark::Pending, 0) is None,
            decreases self.branches@.len(),
        {
            let last = self.branches.len() - 1;
            proof { lemma_find_in_vec(&self.branches@[last as int].marks, Mark::Pending); }
            match find_mark(&self.branches[last].marks, Mark::Pending) {
                Some(p) => {
                    let sch = &mut self.branches[last];
                    advance(&mut sch.marks, p);
                    proof {
                        let b = old(self).branches@;
                        assert(b[last as int].marks@[p as int] == Mark::Pending);
                        assert(has_pending(b, b.len() as int));
                    }
                    return true;
                },
                None => {
                    self.branches.pop();
                },
            }
        }
        proof {
            let b = old(self).branches@;
            assert forall|i: int, j: int| 0 <= i < b.len() && 0 <= j < b[i].marks@.len() implies
                #[trigger] b[i].marks@[j] != Mark::Pending by {
                lemma_find_in_vec(&b[i].marks, Mark::Pending);
            }
        }
        false
    }

    pub fn pos(&self) -> (r: usize)
        ensures
            r == self.pos,
    {
        self.pos
    }
}

} // verus!
