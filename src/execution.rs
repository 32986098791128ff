use vstd::prelude::*;
use crate::object::{Access, LeakError, Store};
use crate::path::{first_mark, has_pending, owed, preemptions_of, stepped, lemma_first_mark_found, pick, Mark, Path, PathError};
use crate::thread::{Id, Thread, ThreadState};
use crate::thread_set::ThreadSet;
use crate::vv::{join_spec, le_spec, lemma_join_grows};

verus! {

/// The process-wide source of run identities. One instance is made when the
/// process starts and is never reset; drawing an identity is its only
/// operation, so identities never repeat.
#[derive(Debug)]
pub struct IdSource {
    pub next: u64,
}

impl IdSource {
    pub fn new() -> (r: IdSource)
        ensures
            r.next == 0,
    {
        IdSource { next: 0 }
    }
}

impl Id {
    /// Draws the next identity.
    pub fn new(src: &mut IdSource) -> (r: Id)
        requires
            old(src).next < u64::MAX,
        ensures
            r.0 == old(src).next,
            final(src).next == old(src).next + 1,
    {
        let r = Id(src.next);
        src.next = src.next + 1;
        r
    }
}

/// Why a run, or one scheduling decision in it, cannot go on.
#[derive(Debug)]
pub enum Failure {
    /// No thread can run while some have not terminated; the state of
    /// every thread, by identifier.
    Deadlock(Vec<ThreadState>),
    /// The run took more branch decisions than the configured bound.
    BranchLimit,
    /// The run spawned more threads than the configured bound.
    ThreadLimit,
    /// A clock entry would pass its largest value.
    ClockOverflow,
    /// A replayed decision names a thread that this run never created.
    Nondeterministic,
}

/// The states of the thread-set contents, in order.
pub open spec fn states_of(ths: Seq<Thread>) -> Seq<ThreadState> {
    Seq::new(ths.len(), |i: int| ths[i].state)
}

/// The thread states that a failure reports, where it is a deadlock.
pub open spec fn deadlock_states(f: Failure) -> Option<Seq<ThreadState>> {
    match f {
        Failure::Deadlock(v) => Some(v@),
        _ => None,
    }
}

/// No clock entry of a thread of `a` is larger in `b`'s copy of that thread.
pub open spec fn clocks_grow(a: Seq<Thread>, b: Seq<Thread>) -> bool {
    &&& a.len() <= b.len()
    &&& forall|i: int| 0 <= i < a.len() ==> {
        &&& le_spec((#[trigger] a[i]).causality@, b[i].causality@)
        &&& le_spec(a[i].dpor_vv@, b[i].dpor_vv@)
    }
}

pub open spec fn runnable(t: Thread) -> bool {
    t.state == ThreadState::Runnable
}

/// Among the first `n` threads, the runnable one with the fewest voluntary
/// yields, the lowest identifier winning ties.
pub open spec fn fewest_yields(ths: Seq<Thread>, n: int) -> Option<usize>
    decreases n,
{
    if n <= 0 {
        None
    } else {
        let b = fewest_yields(ths, n - 1);
        if !runnable(ths[n - 1]) {
            b
        } else if b is None || ths[n - 1].yield_count < ths[b.unwrap() as int].yield_count {
            Some((n - 1) as usize)
        } else {
            b
        }
    }
}

/// The thread the scheduler proposes: the active one while it can run,
/// else the runnable thread with the fewest yields.
pub open spec fn candidate(ths: Seq<Thread>, active: Option<usize>) -> Option<usize> {
    if active is Some && active.unwrap() < ths.len() && runnable(ths[active.unwrap() as int]) {
        active
    } else {
        fewest_yields(ths, ths.len() as int)
    }
}

/// How thread `i` is classified for the decision when `cand` is proposed.
pub open spec fn mark_of(t: Thread, i: int, cand: Option<usize>) -> Mark {
    if cand is Some && cand.unwrap() == i {
        Mark::Active
    } else if t.state == ThreadState::Yield {
        Mark::Yield
    } else if !runnable(t) {
        Mark::Disabled
    } else {
        Mark::Skip
    }
}

pub open spec fn marks_of(ths: Seq<Thread>, cand: Option<usize>) -> Seq<Mark> {
    Seq::new(ths.len(), |i: int| mark_of(ths[i], i, cand))
}

/// A clock after absorbing the latest access, if any.
pub open spec fn absorb(v: Seq<u64>, last: Option<Access>) -> Seq<u64> {
    match last {
        Some(a) => join_spec(v, a.dpor_vv@),
        None => v,
    }
}

pub open spec fn all_terminated(ths: Seq<Thread>) -> bool {
    forall|i: int| 0 <= i < ths.len() ==> (#[trigger] ths[i]).state == ThreadState::Terminated
}

/// The thread states once every yielded thread but `s` runs again.
pub open spec fn woken(ths: Seq<Thread>, s: int) -> Seq<ThreadState> {
    Seq::new(
        ths.len(),
        |i: int|
            if i != s && ths[i].state == ThreadState::Yield {
                ThreadState::Runnable
            } else {
                ths[i].state
            },
    )
}

/// Identities drawn from one source, each while the source stands at least
/// one draw past the previous, strictly increase; so no identity repeats
/// over any sequence of permutations.
pub proof fn lemma_identities_increase(ids: Seq<Id>, source_at: Seq<u64>)
    requires
        ids.len() == source_at.len(),
        forall|k: int| 0 <= k < ids.len() ==> (#[trigger] ids[k]).0 == source_at[k],
        forall|k: int| 0 <= k < ids.len() - 1 ==> #[trigger] source_at[k] < source_at[k + 1],
    ensures
        forall|i: int, j: int| 0 <= i < j < ids.len() ==> #[trigger] ids[i].0 < #[trigger] ids[j].0,
    decreases ids.len(),
{
    if ids.len() > 1 {
        let n = ids.len() - 1;
        lemma_identities_increase(ids.drop_last(), source_at.drop_last());
        assert forall|i: int, j: int| 0 <= i < j < ids.len() implies #[trigger] ids[i].0
            < #[trigger] ids[j].0 by {
            if j < n {
                assert(ids.drop_last()[i] == ids[i] && ids.drop_last()[j] == ids[j]);
            } else if i < n - 1 {
                assert(ids.drop_last()[i] == ids[i] && ids.drop_last()[n - 1] == ids[n - 1]);
                assert(source_at[n - 1] < source_at[n]);
            } else {
                assert(source_at[n - 1] < source_at[n]);
            }
        }
    }
}

/// Over a run observed as successive thread-set contents, each step of
/// which lets clocks only grow, every clock entry of every thread is
/// non-decreasing from any observation to any later one.
pub proof fn lemma_clocks_never_decrease(run: Seq<Seq<Thread>>)
    requires
        forall|k: int| 0 <= k < run.len() - 1 ==> clocks_grow(#[trigger] run[k], run[k + 1]),
    ensures
        forall|i: int, j: int| 0 <= i <= j < run.len() ==> clocks_grow(#[trigger] run[i], #[trigger] run[j]),
    decreases run.len(),
{
    if run.len() > 0 {
        let n = run.len() - 1;
        let p = run.drop_last();
        lemma_clocks_never_decrease(p);
        assert forall|i: int, j: int| 0 <= i <= j < run.len() implies clocks_grow(
            #[trigger] run[i],
            #[trigger] run[j],
        ) by {
            if j < n {
                assert(p[i] == run[i] && p[j] == run[j]);
            } else if i == n {
                assert forall|t: int| 0 <= t < run[i].len() implies {
                    &&& le_spec((#[trigger] run[i][t]).causality@, run[j][t].causality@)
                    &&& le_spec(run[i][t].dpor_vv@, run[j][t].dpor_vv@)
                } by {}
            } else {
                assert(p[i] == run[i] && p[n - 1] == run[n - 1]);
                assert(clocks_grow(run[i], run[n - 1]));
                assert(clocks_grow(run[n - 1], run[n]));
                assert forall|t: int| 0 <= t < run[i].len() implies {
                    &&& le_spec((#[trigger] run[i][t]).causality@, run[j][t].causality@)
                    &&& le_spec(run[i][t].dpor_vv@, run[j][t].dpor_vv@)
                } by {
                    let a = run[i][t];
                    let b = run[n - 1][t];
                    let c = run[n][t];
                    assert(le_spec(a.causality@, b.causality@));
                    assert(le_spec(b.causality@, c.causality@));
                    assert(le_spec(a.dpor_vv@, b.dpor_vv@));
                    assert(le_spec(b.dpor_vv@, c.dpor_vv@));
                    assert forall|x: int| 0 <= x < a.causality@.len() implies #[trigger] a.causality@[x]
                        <= c.causality@[x] by {
                        assert(a.causality@[x] <= b.causality@[x]);
                    }
                    assert forall|x: int| 0 <= x < a.dpor_vv@.len() implies #[trigger] a.dpor_vv@[x]
                        <= c.dpor_vv@[x] by {
                        assert(a.dpor_vv@[x] <= b.dpor_vv@[x]);
                    }
                }
            }
        }
    }
}

proof fn lemma_fewest_yields(ths: Seq<Thread>, n: int)
    requires
        0 <= n <= ths.len(),
        ths.len() <= usize::MAX,
    ensures
        fewest_yields(ths, n) is Some ==> {
            let b = fewest_yields(ths, n).unwrap() as int;
            0 <= b < n && runnable(ths[b])
        },
        fewest_yields(ths, n) is None <==> forall|j: int| 0 <= j < n ==> !runnable(#[trigger] ths[j]),
    decreases n,
{
    if n > 0 {
        lemma_fewest_yields(ths, n - 1);
    }
}

/// Where every thread is blocked or terminated, a decision at a position
/// reached for the first time selects no thread, so the decision reports a
/// deadlock unless every thread has terminated.
pub proof fn lemma_blocked_threads_select_none(ths: Seq<Thread>, active: Option<usize>)
    requires
        ths.len() <= usize::MAX,
        forall|i: int| 0 <= i < ths.len() ==> (#[trigger] ths[i]).state == ThreadState::Blocked
            || ths[i].state == ThreadState::Terminated,
    ensures
        pick(marks_of(ths, candidate(ths, active))) is None,
{
    lemma_fewest_yields(ths, ths.len() as int);
    let m = marks_of(ths, candidate(ths, active));
    assert(candidate(ths, active) is None);
    lemma_first_mark_found(m, Mark::Active, 0);
    lemma_first_mark_found(m, Mark::Yield, 0);
}

/// A thread that yielded is not selected at a position reached for the
/// first time while some thread can run, and is runnable again after that
/// decision: a yield costs exactly one round.
pub proof fn lemma_yield_lasts_one_round(ths: Seq<Thread>, active: Option<usize>, i: int, r: int)
    requires
        ths.len() <= usize::MAX,
        0 <= i < ths.len(),
        ths[i].state == ThreadState::Yield,
        0 <= r < ths.len(),
        runnable(ths[r]),
    ensures
        pick(marks_of(ths, candidate(ths, active))) is Some,
        pick(marks_of(ths, candidate(ths, active))) != Some(i as usize),
        woken(ths, pick(marks_of(ths, candidate(ths, active))).unwrap() as int)[i]
            == ThreadState::Runnable,
{
    lemma_fewest_yields(ths, ths.len() as int);
    let c = candidate(ths, active);
    assert(c is Some);
    let m = marks_of(ths, c);
    assert(m[c.unwrap() as int] == Mark::Active);
    lemma_first_mark_found(m, Mark::Active, 0);
}

/// Whether the pending operation of thread `t` races with the latest access
/// of its object, that access having been recorded at branch position `p`:
/// the access is not ordered before the thread's scheduling clock.
pub open spec fn races_at(ths: Seq<Thread>, objects: Store, t: int, p: int) -> bool {
    &&& 0 <= t < ths.len()
    &&& ths[t].operation is Some
    &&& objects.last_spec(ths[t].operation.unwrap()) is Some
    &&& objects.last_spec(ths[t].operation.unwrap()).unwrap().path_id == p
    &&& !le_spec(objects.last_spec(ths[t].operation.unwrap()).unwrap().dpor_vv@, ths[t].dpor_vv@)
}

/// Whether the race of thread `t` at position `p` owes it a turn there: the
/// ledger keeps the obligation unless the position is unknown, the thread
/// is beyond its marks, or the position already carries as many
/// preemptions as the bound allows.
pub open spec fn owes(path: Path, ths: Seq<Thread>, objects: Store, t: int, p: int) -> bool {
    &&& races_at(ths, objects, t, p)
    &&& 0 <= p < path.branches@.len()
    &&& t < path.branches@[p].marks@.len()
    &&& !(path.preemption_bound is Some && path.branches@[p].preemptions
        >= path.preemption_bound.unwrap())
}

/// The marks at position `p` once the races of the first `n` threads are
/// seeded: a skipped thread becomes pending where it is owed a turn there,
/// or where a blocked thread is.
pub open spec fn raced_marks(path: Path, ths: Seq<Thread>, objects: Store, p: int, n: int) -> Seq<Mark> {
    let m = path.branches@[p].marks@;
    Seq::new(
        m.len(),
        |j: int|
            if m[j] == Mark::Skip && exists|t: int|
                0 <= t < n && #[trigger] owes(path, ths, objects, t, p) && (t == j || m[t]
                    == Mark::Disabled) {
                Mark::Pending
            } else {
                m[j]
            },
    )
}

/// Every position of `after` holds the marks of `before` with the races of
/// all threads seeded, and the same preemption count.
pub open spec fn races_seeded(before: Path, after: Path, ths: Seq<Thread>, objects: Store) -> bool {
    &&& after.branches@.len() == before.branches@.len()
    &&& forall|p: int| 0 <= p < before.branches@.len() ==> {
        &&& (#[trigger] after.branches@[p]).marks@ == raced_marks(before, ths, objects, p, ths.len() as int)
        &&& after.branches@[p].preemptions == before.branches@[p].preemptions
    }
}

proof fn lemma_raced_step(path: Path, ths: Seq<Thread>, objects: Store, p: int, i: int)
    requires
        0 <= p < path.branches@.len(),
        0 <= i,
    ensures
        owes(path, ths, objects, i, p) ==> owed(raced_marks(path, ths, objects, p, i), i)
            == raced_marks(path, ths, objects, p, i + 1),
        !owes(path, ths, objects, i, p) ==> raced_marks(path, ths, objects, p, i)
            == raced_marks(path, ths, objects, p, i + 1),
{
    let m = path.branches@[p].marks@;
    let cur = raced_marks(path, ths, objects, p, i);
    let next = raced_marks(path, ths, objects, p, i + 1);
    if owes(path, ths, objects, i, p) {
        assert(cur[i] == Mark::Disabled <==> m[i] == Mark::Disabled);
        assert forall|j: int| 0 <= j < m.len() implies #[trigger] owed(cur, i)[j] == next[j] by {
            if m[j] == Mark::Skip && (j == i || m[i] == Mark::Disabled) {
                assert(0 <= i < i + 1 && owes(path, ths, objects, i, p) && (i == j || m[i]
                    == Mark::Disabled));
            }
            if m[j] == Mark::Skip && exists|t: int|
                0 <= t < i + 1 && #[trigger] owes(path, ths, objects, t, p) && (t == j || m[t]
                    == Mark::Disabled) {
                let t = choose|t: int|
                    0 <= t < i + 1 && #[trigger] owes(path, ths, objects, t, p) && (t == j || m[t]
                        == Mark::Disabled);
                if t < i {
                    assert(cur[j] == Mark::Pending);
                }
            }
        }
        assert(owed(cur, i) =~= next);
    } else {
        assert forall|j: int| 0 <= j < m.len() implies #[trigger] cur[j] == next[j] by {
            if m[j] == Mark::Skip && exists|t: int|
                0 <= t < i + 1 && #[trigger] owes(path, ths, objects, t, p) && (t == j || m[t]
                    == Mark::Disabled) {
                let t = choose|t: int|
                    0 <= t < i + 1 && #[trigger] owes(path, ths, objects, t, p) && (t == j || m[t]
                        == Mark::Disabled);
                assert(t != i);
                assert(cur[j] == Mark::Pending);
            }
        }
        assert(cur =~= next);
    }
}

proof fn lemma_raced_none(path: Path, ths: Seq<Thread>, objects: Store, p: int)
    requires
        0 <= p < path.branches@.len(),
    ensures
        raced_marks(path, ths, objects, p, 0) == path.branches@[p].marks@,
{
    assert(raced_marks(path, ths, objects, p, 0) =~= path.branches@[p].marks@);
}

/// What one scheduling decision does, from the state `pre` to the state
/// `post` with result `r`; see [`Execution::schedule`].
pub open spec fn decided(pre: Execution, post: Execution, r: Result<bool, Failure>) -> bool {
    &&& clocks_grow(pre.threads.threads@, post.threads.threads@)
    &&& post.id == pre.id
    &&& post.max_threads == pre.max_threads
    &&& post.raw_allocations == pre.raw_allocations
    &&& post.max_history == pre.max_history
    &&& post.log == pre.log
    &&& post.path.max_branches == pre.path.max_branches
    &&& post.path.preemption_bound == pre.path.preemption_bound
    &&& post.threads.threads@.len() == pre.threads.threads@.len()
    &&& forall|i: int| 0 <= i < pre.threads.threads@.len() ==> {
        &&& (#[trigger] post.threads.threads@[i]).critical == pre.threads.threads@[i].critical
        &&& post.threads.threads@[i].operation == pre.threads.threads@[i].operation
    }
    &&& post.objects.execution_id == pre.objects.execution_id
    &&& post.objects.entries@.len() == pre.objects.entries@.len()
    &&& forall|o: int| 0 <= o < pre.objects.entries@.len() ==>
        (#[trigger] post.objects.entries@[o]).released == pre.objects.entries@[o].released
    &&& ({
        let ths = pre.threads.threads@;
        let op = pre.path;
        let marks = marks_of(ths, candidate(ths, pre.threads.active));
        let fresh = !op.at_limit() && op.pos == op.branches@.len();
        &&& forall|p: int| 0 <= p < op.branches@.len() ==> {
            &&& (#[trigger] post.path.branches@[p]).marks@ == raced_marks(
                op,
                ths,
                pre.objects,
                p,
                ths.len() as int,
            )
            &&& post.path.branches@[p].preemptions == op.branches@[p].preemptions
        }
        &&& fresh ==> post.path.branches@.len() == op.branches@.len() + 1
            && post.path.branches@[op.pos as int].marks@ == crate::path::seeded(marks)
            && post.path.branches@[op.pos as int].preemptions == preemptions_of(
            op.branches@,
            crate::path::seeded(marks),
        )
        &&& !fresh ==> post.path.branches@.len() == op.branches@.len()
    })
    &&& ({
        let ths = pre.threads.threads@;
        let sel = pre.path.select(marks_of(ths, candidate(ths, pre.threads.active)));
        &&& pre.path.at_limit() ==> r == Err::<bool, Failure>(Failure::BranchLimit)
        &&& !pre.path.at_limit() ==> post.path.pos == pre.path.pos + 1
        &&& !pre.path.at_limit() && sel is None ==> {
            &&& post.threads.active is None
            &&& post.threads.threads == pre.threads.threads
            &&& post.objects == pre.objects
            &&& all_terminated(ths) ==> r == Ok::<bool, Failure>(true)
            &&& !all_terminated(ths) ==> r is Err && deadlock_states(r->Err_0) == Some(
                states_of(ths),
            )
        }
        &&& !pre.path.at_limit() && sel is Some && sel.unwrap() >= ths.len() ==> r
            == Err::<bool, Failure>(Failure::Nondeterministic)
        &&& !pre.path.at_limit() && sel is Some && sel.unwrap() < ths.len() ==> {
            let s = sel.unwrap() as int;
            let t = ths[s];
            let ft = post.threads.threads@[s];
            let j = absorb(t.dpor_vv@, pre.objects.last_spec(t.operation.unwrap()));
            let overflow = t.operation is Some && j[s] == u64::MAX;
            &&& post.threads.active == sel
            &&& overflow ==> r == Err::<bool, Failure>(Failure::ClockOverflow)
            &&& !overflow ==> {
                &&& r == Ok::<bool, Failure>(pre.threads.active != sel)
                &&& post.threads.threads@.len() == ths.len()
                &&& states_of(post.threads.threads@) == woken(ths, s)
                &&& t.operation is None ==> ft.dpor_vv@ == t.dpor_vv@
                    && post.objects == pre.objects
                &&& t.operation is Some ==> {
                    let op = t.operation.unwrap();
                    &&& ft.dpor_vv@ == j.update(s, (j[s] + 1) as u64)
                    &&& op < pre.objects.entries@.len() ==> {
                        &&& post.objects.last_spec(op) is Some
                        &&& post.objects.last_spec(op).unwrap().path_id
                            == pre.path.pos
                        &&& post.objects.last_spec(op).unwrap().dpor_vv@
                            == ft.dpor_vv@
                    }
                    &&& forall|o: usize| o != op ==> #[trigger] post.objects.last_spec(o)
                        == pre.objects.last_spec(o)
                }
                &&& forall|i: int| 0 <= i < ths.len() && i != s ==> {
                    &&& (#[trigger] post.threads.threads@[i]).dpor_vv@
                        == ths[i].dpor_vv@
                    &&& post.threads.threads@[i].operation == ths[i].operation
                }
                &&& forall|i: int| 0 <= i < ths.len() ==> {
                    &&& (#[trigger] post.threads.threads@[i]).causality@
                        == ths[i].causality@
                    &&& post.threads.threads@[i].yield_count == ths[i].yield_count
                }
            }
        }
    })
}

/// The views of two states agree: the ledger, every thread and the active
/// one, and every tracked object.
pub open spec fn same_view(a: Execution, b: Execution) -> bool {
    &&& a.path.pos == b.path.pos
    &&& a.path.branches@.len() == b.path.branches@.len()
    &&& forall|p: int| 0 <= p < a.path.branches@.len() ==> {
        &&& (#[trigger] a.path.branches@[p]).marks@ == b.path.branches@[p].marks@
        &&& a.path.branches@[p].preemptions == b.path.branches@[p].preemptions
    }
    &&& a.threads.active == b.threads.active
    &&& a.threads.threads@.len() == b.threads.threads@.len()
    &&& forall|i: int| 0 <= i < a.threads.threads@.len() ==> {
        let x = #[trigger] a.threads.threads@[i];
        let y = b.threads.threads@[i];
        &&& x.state == y.state
        &&& x.critical == y.critical
        &&& x.operation == y.operation
        &&& x.yield_count == y.yield_count
        &&& x.causality@ == y.causality@
        &&& x.dpor_vv@ == y.dpor_vv@
    }
    &&& a.objects.entries@.len() == b.objects.entries@.len()
    &&& forall|o: usize| #[trigger] a.objects.last_spec(o) is Some <==> b.objects.last_spec(o) is Some
    &&& forall|o: usize| #[trigger] a.objects.last_spec(o) is Some ==> {
        &&& a.objects.last_spec(o).unwrap().path_id == b.objects.last_spec(o).unwrap().path_id
        &&& a.objects.last_spec(o).unwrap().dpor_vv@ == b.objects.last_spec(o).unwrap().dpor_vv@
    }
    &&& forall|o: int| 0 <= o < a.objects.entries@.len() ==>
        (#[trigger] a.objects.entries@[o]).released == b.objects.entries@[o].released
}

/// Replaying a decision from the same state, ledger included, gives the
/// same result and states whose views agree: scheduling hides no
/// nondeterminism.
pub proof fn lemma_decision_deterministic(
    pre: Execution,
    x: Execution,
    y: Execution,
    rx: Result<bool, Failure>,
    ry: Result<bool, Failure>,
)
    requires
        decided(pre, x, rx),
        decided(pre, y, ry),
        rx is Ok,
        ry is Ok,
    ensures
        rx == ry,
        same_view(x, y),
{
    let ths = pre.threads.threads@;
    let sel = pre.path.select(marks_of(ths, candidate(ths, pre.threads.active)));
    if sel is Some {
        let s = sel.unwrap() as int;
        assert forall|i: int| 0 <= i < x.threads.threads@.len() implies {
            let a = #[trigger] x.threads.threads@[i];
            let b = y.threads.threads@[i];
            &&& a.state == b.state
            &&& a.causality@ == b.causality@
            &&& a.dpor_vv@ == b.dpor_vv@
        } by {
            assert(states_of(x.threads.threads@)[i] == states_of(y.threads.threads@)[i]);
        }
    }
}

/// The orchestrator of one permutation.
#[derive(Debug)]
pub struct Execution {
    /// Uniquely identifies this run.
    pub id: Id,
    /// The decision log, carried from one permutation to the next.
    pub path: Path,
    pub threads: ThreadSet,
    /// Every tracked object of this run.
    pub objects: Store,
    /// The raw allocations of this run not yet released, each as its
    /// address and the handle of the store object that tracks it.
    pub raw_allocations: Vec<(usize, usize)>,
    /// Maximum number of concurrent threads.
    pub max_threads: usize,
    pub max_history: usize,
    /// Whether the driver reports each thread switch.
    pub log: bool,
}

impl Execution {
    pub open spec fn wf(&self) -> bool {
        &&& self.path.wf()
        &&& self.threads.wf()
        &&& self.threads.max_threads == self.max_threads
        &&& self.objects.wf(self.max_threads as nat)
        &&& self.threads.execution_id == self.id
        &&& self.objects.execution_id == self.id
        &&& forall|i: int| 0 <= i < self.raw_allocations@.len() ==> (#[trigger] self.raw_allocations@[i]).1
            < self.objects.entries@.len()
    }

    /// The state at the start of a permutation with identity `id`.
    pub open spec fn is_fresh(&self, id: Id) -> bool {
        &&& self.id == id
        &&& self.threads.is_fresh(id)
        &&& self.objects.entries@.len() == 0
        &&& self.raw_allocations@.len() == 0
        &&& self.path.pos == 0
    }

    /// Creates the orchestrator of a search; it is then carried from one
    /// permutation to the next by [`Execution::step`].
    pub fn new(
        ids: &mut IdSource,
        max_threads: usize,
        max_branches: usize,
        preemption_bound: Option<usize>,
    ) -> (r: Execution)
        requires
            max_threads >= 1,
            old(ids).next < u64::MAX,
        ensures
            r.wf(),
            r.is_fresh(Id(old(ids).next)),
            final(ids).next == old(ids).next + 1,
            r.id.0 < final(ids).next,
            r.path.branches@.len() == 0,
            r.path.max_branches == max_branches,
            r.path.preemption_bound == preemption_bound,
            r.max_threads == max_threads,
            r.max_history == 7,
            !r.log,
    {
        let id = Id::new(ids);
        let threads = ThreadSet::new(id, max_threads);
        Execution {
            id,
            path: Path::new(max_branches, preemption_bound),
            threads,
            objects: Store::new(id),
            raw_allocations: Vec::new(),
            max_threads,
            max_history: 7,
            log: false,
        }
    }


    /// Seeds backtrack points: for every thread with a pending operation,
    /// each latest access of that object that is not ordered before the
    /// thread's scheduling clock is a race, and the thread is owed a turn at
    /// the position of that access.
    fn detect_races(&mut self)
        requires
            old(self).wf(),
        ensures
            final(self).wf(),
            final(self).path.same_choices(&old(self).path),
            races_seeded(old(self).path, final(self).path, old(self).threads.threads@, old(self).objects),
            final(self).threads == old(self).threads,
            final(self).objects == old(self).objects,
            final(self).id == old(self).id,
            final(self).max_threads == old(self).max_threads,
            final(self).raw_allocations == old(self).raw_allocations,
            final(self).max_history == old(self).max_history,
            final(self).log == old(self).log,
    {
        let ghost p0 = old(self).path;
        let ghost ths = old(self).threads.threads@;
        let ghost objs = old(self).objects;
        proof {
            assert forall|p: int| 0 <= p < p0.branches@.len() implies
                (#[trigger] self.path.branches@[p]).marks@ == raced_marks(p0, ths, objs, p, 0) by {
                lemma_raced_none(p0, ths, objs, p);
            }
        }
        let n = self.threads.threads.len();
        let mut i: usize = 0;
        while i < n
            invariant
                self.wf(),
                n == self.threads.threads@.len(),
                i <= n,
                ths == self.threads.threads@,
                objs == self.objects,
                self.path.same_choices(&p0),
                forall|p: int| 0 <= p < p0.branches@.len() ==> {
                    &&& (#[trigger] self.path.branches@[p]).marks@ == raced_marks(p0, ths, objs, p, i as int)
                    &&& self.path.branches@[p].preemptions == p0.branches@[p].preemptions
                },
                self.threads == old(self).threads,
                self.objects == old(self).objects,
                self.id == old(self).id,
                self.max_threads == old(self).max_threads,
                self.raw_allocations == old(self).raw_allocations,
                self.max_history == old(self).max_history,
                self.log == old(self).log,
            decreases n - i,
        {
            let ghost before = self.path;
            let mut hit: Option<usize> = None;
            match self.threads.threads[i].operation {
                Some(op) => {
                    let accesses = self.objects.last_dependent_accesses(op);
                    if accesses.len() == 1 {
                        let access = &accesses[0];
                        if !access.happens_before(&self.threads.threads[i].dpor_vv) {
                            hit = Some(access.path_id());
                            self.path.backtrack(access.path_id(), i);
                        }
                    }
                },
                None => {},
            }
            proof {
                assert forall|p: int| 0 <= p < p0.branches@.len() implies {
                    &&& (#[trigger] self.path.branches@[p]).marks@ == raced_marks(p0, ths, objs, p, i + 1)
                    &&& self.path.branches@[p].preemptions == p0.branches@[p].preemptions
                } by {
                    lemma_raced_step(p0, ths, objs, p, i as int);
                    if hit == Some(p as usize) {
                        assert(races_at(ths, objs, i as int, p));
                    } else {
                        assert(!races_at(ths, objs, i as int, p));
                        assert(self.path.branches@[p] == before.branches@[p]);
                    }
                }
            }
            i = i + 1;
        }
    }

    /// The thread proposed to run next; see [`candidate`].
    fn candidate(&self) -> (r: Option<usize>)
        requires
            self.wf(),
        ensures
            r == candidate(self.threads.threads@, self.threads.active),
            r is Some ==> r.unwrap() < self.threads.threads@.len(),
    {
        let ths = &self.threads.threads;
        match self.threads.active {
            Some(a) => {
                if ths[a].is_runnable() {
                    return Some(a);
                }
            },
            None => {},
        }
        let mut best: Option<usize> = None;
        let mut i: usize = 0;
        while i < ths.len()
            invariant
                self.wf(),
                ths == &self.threads.threads,
                i <= ths@.len(),
                best == fewest_yields(ths@, i as int),
                best is Some ==> best.unwrap() < i,
            decreases ths@.len() - i,
        {
            if ths[i].is_runnable() {
                match best {
                    Some(b) => {
                        if ths[i].yield_count < ths[b].yield_count {
                            best = Some(i);
                        }
                    },
                    None => {
                        best = Some(i);
                    },
                }
            }
            i = i + 1;
        }
        best
    }

    /// The classification of every thread with `cand` proposed.
    fn classify(&self, cand: Option<usize>) -> (r: Vec<Mark>)
        requires
            self.wf(),
        ensures
            r@ == marks_of(self.threads.threads@, cand),
    {
        let ths = &self.threads.threads;
        let mut r: Vec<Mark> = Vec::new();
        let mut i: usize = 0;
        while i < ths.len()
            invariant
                ths == &self.threads.threads,
                i <= ths@.len(),
                r@ == marks_of(ths@, cand).subrange(0, i as int),
            decreases ths@.len() - i,
        {
            let m = if cand == Some(i) {
                Mark::Active
            } else if ths[i].is_yield() {
                Mark::Yield
            } else if !ths[i].is_runnable() {
                Mark::Disabled
            } else {
                Mark::Skip
            };
            r.push(m);
            i = i + 1;
            assert(r@ =~= marks_of(ths@, cand).subrange(0, i as int));
        }
        assert(r@ =~= marks_of(ths@, cand));
        r
    }


    /// Brings the pending operation of the selected thread `s` into the
    /// causal record: its scheduling clock absorbs the latest access of the
    /// object, its own entry is bumped, and the access is recorded at branch
    /// position `path_id`. Fails, changing nothing, where the entry to bump is
    /// at its largest value.
    fn record_access(&mut self, s: usize, path_id: usize) -> (r: Result<(), Failure>)
        requires
            old(self).wf(),
            s < old(self).threads.threads@.len(),
        ensures
            final(self).wf(),
            final(self).path == old(self).path,
            final(self).id == old(self).id,
            final(self).max_threads == old(self).max_threads,
            final(self).raw_allocations == old(self).raw_allocations,
            final(self).max_history == old(self).max_history,
            final(self).log == old(self).log,
            final(self).objects.execution_id == old(self).objects.execution_id,
            final(self).objects.entries@.len() == old(self).objects.entries@.len(),
            forall|o: int| 0 <= o < old(self).objects.entries@.len() ==>
                (#[trigger] final(self).objects.entries@[o]).released == old(self).objects.entries@[o].released,
            final(self).threads.active == old(self).threads.active,
            final(self).threads.threads@.len() == old(self).threads.threads@.len(),
            forall|i: int| 0 <= i < old(self).threads.threads@.len() && i != s ==>
                #[trigger] final(self).threads.threads@[i] == old(self).threads.threads@[i],
            ({
                let t = old(self).threads.threads@[s as int];
                let ft = final(self).threads.threads@[s as int];
                &&& ft.state == t.state
                &&& ft.critical == t.critical
                &&& ft.yield_count == t.yield_count
                &&& ft.operation == t.operation
                &&& ft.causality@ == t.causality@
                &&& t.operation is None ==> r is Ok && ft.dpor_vv@ == t.dpor_vv@
                    && final(self).objects == old(self).objects
                &&& t.operation is Some ==> {
                    let op = t.operation.unwrap();
                    let j = absorb(t.dpor_vv@, old(self).objects.last_spec(op));
                    &&& j[s as int] == u64::MAX ==> r == Err::<(), Failure>(Failure::ClockOverflow) && *final(self) == *old(self)
                    &&& j[s as int] < u64::MAX ==> {
                        &&& r is Ok
                        &&& ft.dpor_vv@ == j.update(s as int, (j[s as int] + 1) as u64)
                        &&& op < old(self).objects.entries@.len() ==> {
                            &&& final(self).objects.last_spec(op) is Some
                            &&& final(self).objects.last_spec(op).unwrap().path_id == path_id
                            &&& final(self).objects.last_spec(op).unwrap().dpor_vv@ == ft.dpor_vv@
                        }
                        &&& forall|o: usize| o != op ==> #[trigger] final(self).objects.last_spec(o)
                            == old(self).objects.last_spec(o)
                    }
                }
            }),
    {
        let op = match self.threads.threads[s].operation {
            Some(op) => op,
            None => return Ok(()),
        };
        let accesses = self.objects.last_dependent_accesses(op);
        let mut vv = self.threads.threads[s].dpor_vv.copy();
        let ghost t = old(self).threads.threads@[s as int];
        proof {
            if accesses@.len() == 1 {
                assert(old(self).objects.entries@[op as int].last is Some);
            }
        }
        if accesses.len() == 1 {
            vv.join(&accesses[0].dpor_vv);
        }
        assert(vv@ == absorb(t.dpor_vv@, old(self).objects.last_spec(op)));
        if !vv.increment(s) {
            return Err(Failure::ClockOverflow);
        }
        proof { lemma_join_grows(t.dpor_vv@, vv@); }
        let access = Access::new(path_id, &vv);
        {
            let th = &mut self.threads.threads[s];
            th.dpor_vv = vv;
        }
        self.objects.set_last_access(op, access);
        Ok(())
    }

    /// Every yielded thread other than `s` becomes runnable again.
    fn wake_yielded(&mut self, s: usize)
        requires
            old(self).wf(),
        ensures
            final(self).wf(),
            final(self).path == old(self).path,
            final(self).objects == old(self).objects,
            final(self).id == old(self).id,
            final(self).max_threads == old(self).max_threads,
            final(self).raw_allocations == old(self).raw_allocations,
            final(self).max_history == old(self).max_history,
            final(self).log == old(self).log,
            final(self).threads.active == old(self).threads.active,
            final(self).threads.threads@.len() == old(self).threads.threads@.len(),
            states_of(final(self).threads.threads@) == woken(old(self).threads.threads@, s as int),
            forall|i: int| 0 <= i < old(self).threads.threads@.len() ==> {
                let a = #[trigger] final(self).threads.threads@[i];
                let b = old(self).threads.threads@[i];
                &&& a.causality@ == b.causality@
                &&& a.dpor_vv@ == b.dpor_vv@
                &&& a.yield_count == b.yield_count
                &&& a.operation == b.operation
                &&& a.critical == b.critical
            },
    {
        let n = self.threads.threads.len();
        let mut i: usize = 0;
        while i < n
            invariant
                self.wf(),
                n == old(self).threads.threads@.len(),
                self.threads.threads@.len() == n,
                i <= n,
                self.path == old(self).path,
                self.objects == old(self).objects,
                self.id == old(self).id,
                self.max_threads == old(self).max_threads,
                self.raw_allocations == old(self).raw_allocations,
                self.max_history == old(self).max_history,
                self.log == old(self).log,
                self.threads.active == old(self).threads.active,
                forall|j: int| 0 <= j < i ==> (#[trigger] self.threads.threads@[j]).state == woken(
                    old(self).threads.threads@, s as int)[j],
                forall|j: int| i <= j < n ==> #[trigger] self.threads.threads@[j] == old(self).threads.threads@[j],
                forall|j: int| 0 <= j < n ==> {
                    let a = #[trigger] self.threads.threads@[j];
                    let b = old(self).threads.threads@[j];
                    &&& a.causality@ == b.causality@
                    &&& a.dpor_vv@ == b.dpor_vv@
                    &&& a.yield_count == b.yield_count
                    &&& a.operation == b.operation
                    &&& a.critical == b.critical
                },
            decreases n - i,
        {
            if i != s && self.threads.threads[i].is_yield() {
                self.threads.set_state(i, ThreadState::Runnable);
            }
            i = i + 1;
        }
        assert(states_of(self.threads.threads@) =~= woken(old(self).threads.threads@, s as int));
    }


    /// One scheduling decision of the dynamic partial order reduction. Races
    /// on pending operations seed backtrack points; the active thread stays
    /// proposed while it can run, else the runnable thread with the fewest
    /// yields; the decision log picks the thread to run (replaying an earlier
    /// permutation's choice where this position was recorded); its pending
    /// operation enters the causal record; yielded threads other than it run
    /// again. Returns whether the active thread changed. With no thread to
    /// run, every thread must have terminated: otherwise the run deadlocked.
    pub fn schedule(&mut self) -> (r: Result<bool, Failure>)
        requires
            old(self).wf(),
        ensures
            final(self).wf(),
            decided(*old(self), *final(self), r),
    {
        let curr = self.threads.active;
        let ghost ths = old(self).threads.threads@;
        self.detect_races();
        let cand = self.candidate();
        let marks = self.classify(cand);
        let path_id = self.path.pos();
        let ghost before = self.path;
        let next = match self.path.branch_thread(marks) {
            Ok(next) => next,
            Err(PathError::BranchLimit) => return Err(Failure::BranchLimit),
        };
        proof {
            assert(before.pos < before.branches@.len() ==> before.branches@[before.pos as int]
                == self.path.branches@[before.pos as int]);
            let ob = old(self).path.branches@;
            if ob.len() > 0 {
                assert(before.branches@[ob.len() - 1].preemptions == ob[ob.len() - 1].preemptions);
                assert(first_mark(before.branches@[ob.len() - 1].marks@, Mark::Active, 0) == first_mark(
                    ob[ob.len() - 1].marks@, Mark::Active, 0));
            }
        }
        match next {
            None => {
                self.threads.set_active(None);
                let n = self.threads.threads.len();
                let mut states: Vec<ThreadState> = Vec::new();
                let mut terminal = true;
                let mut i: usize = 0;
                while i < n
                    invariant
                        self.wf(),
                        self.threads.threads@ == ths,
                        n == ths.len(),
                        i <= n,
                        states@ == states_of(ths).subrange(0, i as int),
                        terminal == (forall|j: int| 0 <= j < i ==> (#[trigger] ths[j]).state
                            == ThreadState::Terminated),
                    decreases n - i,
                {
                    let st = self.threads.threads[i].state;
                    if st != ThreadState::Terminated {
                        terminal = false;
                    }
                    states.push(st);
                    i = i + 1;
                    assert(states@ =~= states_of(ths).subrange(0, i as int));
                }
                assert(states@ =~= states_of(ths));
                if terminal {
                    Ok(true)
                } else {
                    Err(Failure::Deadlock(states))
                }
            },
            Some(s) => {
                if s >= self.threads.threads.len() {
                    return Err(Failure::Nondeterministic);
                }
                self.threads.set_active(Some(s));
                match self.record_access(s, path_id) {
                    Ok(()) => {},
                    Err(e) => return Err(e),
                }
                let ghost recorded = self.threads.threads@;
                self.wake_yielded(s);
                proof {
                    assert(woken(recorded, s as int) =~= woken(ths, s as int));
                    let fs = self.threads.threads@;
                    assert forall|i: int| 0 <= i < ths.len() implies {
                        &&& le_spec((#[trigger] ths[i]).causality@, fs[i].causality@)
                        &&& le_spec(ths[i].dpor_vv@, fs[i].dpor_vv@)
                    } by {
                        lemma_join_grows(ths[i].dpor_vv@, ths[i].dpor_vv@);
                    }
                }
                Ok(curr != Some(s))
            },
        }
    }

    /// Tracks a raw allocation at `addr` as a new object of the store, so
    /// that the leak audit fails while it is not released.
    pub fn track_allocation(&mut self, addr: usize) -> (r: usize)
        requires
            old(self).wf(),
            old(self).objects.entries@.len() < usize::MAX,
        ensures
            final(self).wf(),
            r == old(self).objects.entries@.len(),
            final(self).objects.entries@.len() == old(self).objects.entries@.len() + 1,
            forall|i: int| 0 <= i < r ==> #[trigger] final(self).objects.entries@[i] == old(self).objects.entries@[i],
            final(self).objects.entries@[r as int].last is None,
            !final(self).objects.entries@[r as int].released,
            final(self).raw_allocations@ == old(self).raw_allocations@.push((addr, r)),
            final(self).threads == old(self).threads,
            final(self).path == old(self).path,
            final(self).id == old(self).id,
            final(self).max_threads == old(self).max_threads,
            final(self).max_history == old(self).max_history,
            final(self).log == old(self).log,
    {
        let r = self.objects.create();
        self.raw_allocations.push((addr, r));
        r
    }

    /// Releases the raw allocation at `addr`: the object tracking it is
    /// marked released and the first table entry for `addr` leaves the
    /// table. Returns `false`, changing nothing, where no allocation at
    /// `addr` is tracked.
    pub fn release_allocation(&mut self, addr: usize) -> (r: bool)
        requires
            old(self).wf(),
        ensures
            final(self).wf(),
            r == exists|i: int|
                0 <= i < old(self).raw_allocations@.len() && (#[trigger] old(self).raw_allocations@[i]).0 == addr,
            !r ==> *final(self) == *old(self),
            r ==> exists|k: int| {
                let h = old(self).raw_allocations@[k].1 as int;
                &&& 0 <= k < old(self).raw_allocations@.len()
                &&& (#[trigger] old(self).raw_allocations@[k]).0 == addr
                &&& forall|i: int| 0 <= i < k ==> (#[trigger] old(self).raw_allocations@[i]).0 != addr
                &&& final(self).raw_allocations@ == old(self).raw_allocations@.remove(k)
                &&& final(self).objects.entries@.len() == old(self).objects.entries@.len()
                &&& final(self).objects.entries@[h].released
                &&& final(self).objects.entries@[h].last == old(self).objects.entries@[h].last
                &&& forall|i: int| 0 <= i < old(self).objects.entries@.len() && i != h ==>
                    #[trigger] final(self).objects.entries@[i] == old(self).objects.entries@[i]
            },
            final(self).threads == old(self).threads,
            final(self).path == old(self).path,
            final(self).id == old(self).id,
            final(self).max_threads == old(self).max_threads,
            final(self).max_history == old(self).max_history,
            final(self).log == old(self).log,
    {
        let mut k: usize = 0;
        while k < self.raw_allocations.len()
            invariant
                self.wf(),
                *self == *old(self),
                k <= self.raw_allocations@.len(),
                forall|i: int| 0 <= i < k ==> (#[trigger] self.raw_allocations@[i]).0 != addr,
            decreases self.raw_allocations@.len() - k,
        {
            if self.raw_allocations[k].0 == addr {
                let (_, h) = self.raw_allocations.remove(k);
                self.objects.release(h);
                proof {
                    let old_raw = old(self).raw_allocations@;
                    assert(old_raw[k as int].0 == addr);
                    assert forall|i: int| 0 <= i < self.raw_allocations@.len() implies (
                    #[trigger] self.raw_allocations@[i]).1 < self.objects.entries@.len() by {
                        if i < k {
                            assert(self.raw_allocations@[i] == old_raw[i]);
                        } else {
                            assert(self.raw_allocations@[i] == old_raw[i + 1]);
                        }
                    }
                }
                return true;
            }
            k = k + 1;
        }
        false
    }

    /// Spawns a thread from the active one. The child starts with everything
    /// its parent knows; then the child's own causality entry and the
    /// parent's are each bumped, so that the spawn is ordered before every
    /// later action of both. Fails, changing nothing, where the set is full
    /// or an entry to bump is at its largest value.
    pub fn new_thread(&mut self) -> (r: Result<usize, Failure>)
        requires
            old(self).wf(),
            old(self).threads.active is Some,
        ensures
            final(self).wf(),
            clocks_grow(old(self).threads.threads@, final(self).threads.threads@),
            ({
                let ths = old(self).threads.threads@;
                let a = old(self).threads.active.unwrap() as int;
                let n = ths.len() as int;
                let pc = ths[a].causality@;
                &&& n == old(self).max_threads ==> r == Err::<usize, Failure>(Failure::ThreadLimit)
                &&& n < old(self).max_threads && (pc[a] == u64::MAX || pc[n] == u64::MAX)
                    ==> r == Err::<usize, Failure>(Failure::ClockOverflow)
                &&& r is Err ==> final(self).threads.threads@ == ths
                &&& n < old(self).max_threads && pc[a] < u64::MAX && pc[n] < u64::MAX ==> {
                    let fs = final(self).threads.threads@;
                    &&& r == Ok::<usize, Failure>(n as usize)
                    &&& fs.len() == n + 1
                    &&& fs[n].state == ThreadState::Runnable
                    &&& fs[n].operation is None
                    &&& !fs[n].critical
                    &&& fs[n].yield_count == 0
                    &&& fs[n].causality@ == pc.update(n, (pc[n] + 1) as u64)
                    &&& fs[n].dpor_vv@ == ths[a].dpor_vv@
                    &&& fs[a].causality@ == pc.update(a, (pc[a] + 1) as u64)
                    &&& fs[a].dpor_vv@ == ths[a].dpor_vv@
                    &&& fs[a].state == ths[a].state
                    &&& fs[a].operation == ths[a].operation
                    &&& fs[a].critical == ths[a].critical
                    &&& fs[a].yield_count == ths[a].yield_count
                    &&& forall|i: int| 0 <= i < n && i != a ==> #[trigger] fs[i] == ths[i]
                }
            }),
            final(self).threads.active == old(self).threads.active,
            final(self).id == old(self).id,
            final(self).path == old(self).path,
            final(self).objects == old(self).objects,
            final(self).max_threads == old(self).max_threads,
            final(self).raw_allocations == old(self).raw_allocations,
            final(self).max_history == old(self).max_history,
            final(self).log == old(self).log,
    {
        let a = self.threads.active.unwrap();
        let n = self.threads.threads.len();
        if n >= self.max_threads {
            return Err(Failure::ThreadLimit);
        }
        let pc = self.threads.threads[a].causality.copy();
        let pd = self.threads.threads[a].dpor_vv.copy();
        if pc.get(a) == u64::MAX || pc.get(n) == u64::MAX {
            return Err(Failure::ClockOverflow);
        }
        let t = self.threads.new_thread().unwrap();
        let ghost zeros = Seq::new(self.max_threads as nat, |i: int| 0u64);
        proof {
            assert(join_spec(zeros, pc@) =~= pc@);
            assert(join_spec(zeros, pd@) =~= pd@);
        }
        {
            let child = &mut self.threads.threads[t];
            child.causality.join(&pc);
            child.dpor_vv.join(&pd);
            child.causality.increment(t);
        }
        {
            let parent = &mut self.threads.threads[a];
            parent.causality.increment(a);
        }
        proof {
            let ths = old(self).threads.threads@;
            let fs = self.threads.threads@;
            assert forall|i: int| 0 <= i < ths.len() implies {
                &&& le_spec((#[trigger] ths[i]).causality@, fs[i].causality@)
                &&& le_spec(ths[i].dpor_vv@, fs[i].dpor_vv@)
            } by {
                if i != a {
                    assert(fs[i] == ths[i]);
                }
            }
        }
        Ok(t)
    }

    /// Ends this permutation. Returns the orchestrator of the next one, with
    /// a new identity, fresh threads, no tracked objects and the same limits,
    /// or `None` once the decision log has nothing left to try.
    pub fn step(self, ids: &mut IdSource) -> (r: Option<Execution>)
        requires
            self.wf(),
            self.id.0 < old(ids).next < u64::MAX,
        ensures
            r is Some == has_pending(self.path.branches@, self.path.branches@.len() as int),
            r is Some ==> {
                let e = r.unwrap();
                &&& e.wf()
                &&& e.is_fresh(Id(old(ids).next))
                &&& final(ids).next == old(ids).next + 1
                &&& e.id.0 < final(ids).next
                &&& e.max_threads == self.max_threads
                &&& e.max_history == self.max_history
                &&& e.log == self.log
                &&& e.path.max_branches == self.path.max_branches
                &&& e.path.preemption_bound == self.path.preemption_bound
                &&& stepped(self.path.branches@, e.path.branches@)
            },
            r is None ==> final(ids).next == old(ids).next,
            r is Some ==> r.unwrap().id.0 > self.id.0,
    {
        let max_threads = self.max_threads;
        let max_history = self.max_history;
        let log = self.log;
        let mut path = self.path;
        let mut objects = self.objects;
        let mut raw_allocations = self.raw_allocations;
        let mut threads = self.threads;
        if !path.step() {
            return None;
        }
        let id = Id::new(ids);
        objects.clear(id);
        raw_allocations.clear();
        threads.clear(id);
        Some(Execution { id, path, threads, objects, raw_allocations, max_threads, max_history, log })
    }

    /// Audits the run for tracked objects that were never released.
    pub fn check_for_leaks(&self) -> (r: Result<(), LeakError>)
        ensures
            r == (match self.objects.first_leak(0) {
                Some(i) => Err(LeakError::Leaked(i)),
                None => Ok(()),
            }),
    {
        self.objects.check_for_leaks()
    }

    /// Marks the active thread as inside a primitive that must not be preempted.
    pub fn set_critical(&mut self)
        requires
            old(self).wf(),
            old(self).threads.active is Some,
        ensures
            final(self).wf(),
            ({
                let a = old(self).threads.active.unwrap() as int;
                &&& final(self).threads.threads@ == old(self).threads.threads@.update(
                    a,
                    final(self).threads.threads@[a],
                )
                &&& final(self).threads.threads@[a].critical
                &&& final(self).threads.threads@[a].state == old(self).threads.threads@[a].state
                &&& final(self).threads.threads@[a].operation == old(self).threads.threads@[a].operation
                &&& final(self).threads.threads@[a].yield_count == old(self).threads.threads@[a].yield_count
                &&& final(self).threads.threads@[a].id == old(self).threads.threads@[a].id
                &&& final(self).threads.threads@[a].causality@ == old(self).threads.threads@[a].causality@
                &&& final(self).threads.threads@[a].dpor_vv@ == old(self).threads.threads@[a].dpor_vv@
            }),
            final(self).threads.active == old(self).threads.active,
            final(self).id == old(self).id,
            final(self).path == old(self).path,
            final(self).objects == old(self).objects,
            final(self).max_threads == old(self).max_threads,
            final(self).raw_allocations == old(self).raw_allocations,
            final(self).max_history == old(self).max_history,
            final(self).log == old(self).log,
    {
        let a = self.threads.active.unwrap();
        self.threads.set_critical(a, true);
        assert(self.threads.threads@ =~= old(self).threads.threads@.update(a as int, self.threads.threads@[a as int]));
    }

    /// Clears the critical-section mark of the active thread.
    pub fn unset_critical(&mut self)
        requires
            old(self).wf(),
            old(self).threads.active is Some,
        ensures
            final(self).wf(),
            ({
                let a = old(self).threads.active.unwrap() as int;
                &&& final(self).threads.threads@ == old(self).threads.threads@.update(
                    a,
                    final(self).threads.threads@[a],
                )
                &&& !final(self).threads.threads@[a].critical
                &&& final(self).threads.threads@[a].state == old(self).threads.threads@[a].state
                &&& final(self).threads.threads@[a].operation == old(self).threads.threads@[a].operation
                &&& final(self).threads.threads@[a].yield_count == old(self).threads.threads@[a].yield_count
                &&& final(self).threads.threads@[a].id == old(self).threads.threads@[a].id
                &&& final(self).threads.threads@[a].causality@ == old(self).threads.threads@[a].causality@
                &&& final(self).threads.threads@[a].dpor_vv@ == old(self).threads.threads@[a].dpor_vv@
            }),
            final(self).threads.active == old(self).threads.active,
            final(self).id == old(self).id,
            final(self).path == old(self).path,
            final(self).objects == old(self).objects,
            final(self).max_threads == old(self).max_threads,
            final(self).raw_allocations == old(self).raw_allocations,
            final(self).max_history == old(self).max_history,
            final(self).log == old(self).log,
    {
        let a = self.threads.active.unwrap();
        self.threads.set_critical(a, false);
        assert(self.threads.threads@ =~= old(self).threads.threads@.update(a as int, self.threads.threads@[a as int]));
    }
}

} // verus!
