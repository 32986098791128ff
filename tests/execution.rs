use loom::execution::{Execution, Failure, IdSource};
use loom::object::LeakError;
use loom::path::Mark;
use loom::thread::{Id, ThreadState};

fn clock(exec: &Execution, t: usize) -> Vec<u64> {
    exec.threads.threads[t].causality.v.clone()
}

fn dpor(exec: &Execution, t: usize) -> Vec<u64> {
    exec.threads.threads[t].dpor_vv.v.clone()
}

fn last_clock(exec: &Execution, obj: usize) -> Vec<u64> {
    exec.objects.entries[obj].last.as_ref().unwrap().dpor_vv.v.clone()
}

/// Runs one permutation of a program whose two threads each write twice to
/// one shared counter; returns the order of the writes as (thread, write).
/// Every scheduling point comes right before a write or after a thread's
/// last one: the child starts with its first write pending.
fn run_two_writers(exec: &mut Execution) -> Vec<(usize, usize)> {
    let obj = exec.objects.create();
    let child = exec.new_thread().unwrap();
    assert_eq!(child, 1);
    let mut done = [0usize; 2];
    let mut pending = [false, true];
    exec.threads.set_operation(child, Some(obj));
    let mut order = Vec::new();
    loop {
        let a = exec.threads.active_id().unwrap();
        if pending[a] {
            order.push((a, done[a]));
            done[a] += 1;
            pending[a] = false;
        }
        if done[a] == 2 {
            exec.threads.set_operation(a, None);
            exec.threads.set_state(a, ThreadState::Terminated);
            exec.schedule().unwrap();
            if exec.threads.active_id().is_none() {
                break;
            }
            continue;
        }
        exec.threads.set_operation(a, Some(obj));
        pending[a] = true;
        exec.schedule().unwrap();
    }
    exec.objects.release(obj);
    order
}

fn explore_two_writers() -> (Vec<Vec<(usize, usize)>>, Vec<u64>) {
    let mut ids = IdSource::new();
    let mut exec = Execution::new(&mut ids, 2, 100, None);
    let mut runs = Vec::new();
    let mut idents = vec![exec.id.0];
    loop {
        runs.push(run_two_writers(&mut exec));
        assert!(exec.check_for_leaks().is_ok());
        match exec.step(&mut ids) {
            Some(next) => {
                idents.push(next.id.0);
                exec = next;
            },
            None => break,
        }
    }
    (runs, idents)
}

#[test]
fn ids_strictly_increase() {
    let mut ids = IdSource::new();
    let a = Id::new(&mut ids);
    let b = Id::new(&mut ids);
    assert_eq!(a, Id(0));
    assert_eq!(b, Id(1));
    let exec = Execution::new(&mut ids, 2, 10, None);
    assert_eq!(exec.id, Id(2));
    assert_eq!(ids.next, 3);
}

#[test]
fn identities_increase_over_permutations() {
    let (_, idents) = explore_two_writers();
    assert!(idents.len() > 1);
    for w in idents.windows(2) {
        assert!(w[0] < w[1]);
    }
}

#[test]
fn new_execution_is_fresh() {
    let mut ids = IdSource::new();
    let exec = Execution::new(&mut ids, 3, 10, Some(2));
    assert_eq!(exec.threads.threads.len(), 1);
    assert_eq!(exec.threads.active_id(), Some(0));
    assert_eq!(exec.threads.threads[0].state, ThreadState::Runnable);
    assert_eq!(clock(&exec, 0), vec![0, 0, 0]);
    assert_eq!(exec.max_history, 7);
    assert_eq!(exec.path.preemption_bound, Some(2));
    assert!(!exec.log);
}

#[test]
fn spawn_orders_both_threads_after_the_spawn() {
    let mut ids = IdSource::new();
    let mut exec = Execution::new(&mut ids, 2, 10, None);
    let obj = exec.objects.create();
    let parent_at_spawn = dpor(&exec, 0);
    let child = exec.new_thread().unwrap();
    assert_eq!(child, 1);
    assert_eq!(clock(&exec, 0), vec![1, 0]);
    assert_eq!(clock(&exec, 1), vec![0, 1]);

    // The parent waits; the child runs and writes.
    exec.threads.set_state(0, ThreadState::Blocked);
    assert_eq!(exec.schedule().unwrap(), true);
    assert_eq!(exec.threads.active_id(), Some(1));
    exec.threads.set_operation(1, Some(obj));
    assert_eq!(exec.schedule().unwrap(), false);
    let child_write = last_clock(&exec, obj);
    assert_eq!(child_write, vec![0, 1]);
    for i in 0..2 {
        assert!(parent_at_spawn[i] <= child_write[i]);
    }

    // The child ends; the parent writes next, after the child's write.
    exec.threads.set_operation(1, None);
    exec.threads.set_state(1, ThreadState::Terminated);
    exec.threads.set_state(0, ThreadState::Runnable);
    assert_eq!(exec.schedule().unwrap(), true);
    exec.threads.set_operation(0, Some(obj));
    exec.schedule().unwrap();
    let parent_write = last_clock(&exec, obj);
    assert_eq!(parent_write, vec![1, 1]);
    for i in 0..2 {
        assert!(child_write[i] <= parent_write[i]);
    }
    assert!(parent_write[0] > parent_at_spawn[0]);
}

#[test]
fn spawn_beyond_thread_limit_fails() {
    let mut ids = IdSource::new();
    let mut exec = Execution::new(&mut ids, 2, 10, None);
    assert_eq!(exec.new_thread().unwrap(), 1);
    assert!(matches!(exec.new_thread(), Err(Failure::ThreadLimit)));
    assert_eq!(exec.threads.threads.len(), 2);
}

#[test]
fn spawn_with_full_clock_fails() {
    let mut ids = IdSource::new();
    let mut exec = Execution::new(&mut ids, 2, 10, None);
    exec.threads.threads[0].causality.v[0] = u64::MAX;
    assert!(matches!(exec.new_thread(), Err(Failure::ClockOverflow)));
    assert_eq!(exec.threads.threads.len(), 1);
}

#[test]
fn blocked_threads_deadlock() {
    let mut ids = IdSource::new();
    let mut exec = Execution::new(&mut ids, 2, 10, None);
    exec.new_thread().unwrap();
    exec.threads.set_state(0, ThreadState::Blocked);
    exec.threads.set_state(1, ThreadState::Blocked);
    match exec.schedule() {
        Err(Failure::Deadlock(states)) => {
            assert_eq!(states, vec![ThreadState::Blocked, ThreadState::Blocked]);
        },
        other => panic!("expected a deadlock, got {:?}", other),
    }
    assert!(!exec.threads.is_active());
}

#[test]
fn terminated_threads_do_not_deadlock() {
    let mut ids = IdSource::new();
    let mut exec = Execution::new(&mut ids, 2, 10, None);
    exec.new_thread().unwrap();
    exec.threads.set_state(0, ThreadState::Terminated);
    exec.threads.set_state(1, ThreadState::Terminated);
    assert_eq!(exec.schedule().unwrap(), true);
    assert!(!exec.threads.is_active());
}

#[test]
fn yield_skips_exactly_one_round() {
    let mut ids = IdSource::new();
    let mut exec = Execution::new(&mut ids, 2, 10, None);
    exec.new_thread().unwrap();
    exec.threads.set_state(0, ThreadState::Yield);
    assert_eq!(exec.threads.threads[0].yield_count, 1);
    assert_eq!(exec.schedule().unwrap(), true);
    assert_eq!(exec.threads.active_id(), Some(1));
    // Skipped this round, eligible again for the next.
    assert_eq!(exec.threads.threads[0].state, ThreadState::Runnable);
    exec.threads.set_state(1, ThreadState::Blocked);
    assert_eq!(exec.schedule().unwrap(), true);
    assert_eq!(exec.threads.active_id(), Some(0));
}

#[test]
fn yield_on_n_rounds_skips_n_rounds() {
    let mut ids = IdSource::new();
    let mut exec = Execution::new(&mut ids, 2, 20, None);
    exec.new_thread().unwrap();
    let n = 4;
    for _ in 0..n {
        exec.threads.set_state(0, ThreadState::Yield);
        exec.schedule().unwrap();
        assert_eq!(exec.threads.active_id(), Some(1));
    }
    assert_eq!(exec.threads.threads[0].yield_count, n);
    assert_eq!(exec.threads.threads[0].state, ThreadState::Runnable);
    exec.threads.set_state(1, ThreadState::Blocked);
    exec.schedule().unwrap();
    assert_eq!(exec.threads.active_id(), Some(0));
}

#[test]
fn only_yielded_threads_left_runs_a_yielded_one() {
    let mut ids = IdSource::new();
    let mut exec = Execution::new(&mut ids, 2, 10, None);
    exec.new_thread().unwrap();
    exec.threads.set_state(0, ThreadState::Yield);
    exec.threads.set_state(1, ThreadState::Blocked);
    assert_eq!(exec.schedule().unwrap(), false);
    assert_eq!(exec.threads.active_id(), Some(0));
    assert_eq!(exec.threads.threads[0].state, ThreadState::Yield);
}

#[test]
fn runnable_thread_with_fewest_yields_is_proposed() {
    let mut ids = IdSource::new();
    let mut exec = Execution::new(&mut ids, 3, 10, None);
    exec.new_thread().unwrap();
    exec.new_thread().unwrap();
    exec.threads.set_state(1, ThreadState::Yield);
    exec.threads.set_state(1, ThreadState::Runnable);
    exec.threads.set_state(0, ThreadState::Blocked);
    exec.schedule().unwrap();
    assert_eq!(exec.threads.active_id(), Some(2));
}

#[test]
fn released_object_passes_audit() {
    let mut ids = IdSource::new();
    let mut exec = Execution::new(&mut ids, 1, 10, None);
    let obj = exec.objects.create();
    exec.objects.release(obj);
    assert_eq!(exec.check_for_leaks(), Ok(()));
}

#[test]
fn unreleased_object_fails_audit_only_at_audit() {
    let mut ids = IdSource::new();
    let mut exec = Execution::new(&mut ids, 1, 10, None);
    let a = exec.objects.create();
    let b = exec.objects.create();
    exec.objects.release(a);
    exec.threads.set_operation(0, Some(b));
    assert!(exec.schedule().is_ok());
    assert_eq!(exec.check_for_leaks(), Err(LeakError::Leaked(b)));
}

#[test]
fn branch_limit_is_reported() {
    let mut ids = IdSource::new();
    let mut exec = Execution::new(&mut ids, 1, 2, None);
    assert!(exec.schedule().is_ok());
    assert!(exec.schedule().is_ok());
    assert!(matches!(exec.schedule(), Err(Failure::BranchLimit)));
}

#[test]
fn critical_marks_toggle_on_active_thread() {
    let mut ids = IdSource::new();
    let mut exec = Execution::new(&mut ids, 1, 10, None);
    exec.set_critical();
    assert!(exec.threads.threads[0].critical);
    exec.unset_critical();
    assert!(!exec.threads.threads[0].critical);
}

#[test]
fn access_absorbs_and_bumps_clock() {
    let mut ids = IdSource::new();
    let mut exec = Execution::new(&mut ids, 2, 10, None);
    let obj = exec.objects.create();
    exec.threads.set_operation(0, Some(obj));
    exec.schedule().unwrap();
    assert_eq!(dpor(&exec, 0), vec![1, 0]);
    assert_eq!(exec.objects.entries[obj].last.as_ref().unwrap().path_id, 0);
    exec.schedule().unwrap();
    assert_eq!(dpor(&exec, 0), vec![2, 0]);
    assert_eq!(last_clock(&exec, obj), vec![2, 0]);
    assert_eq!(exec.objects.entries[obj].last.as_ref().unwrap().path_id, 1);
}

#[test]
fn full_scheduling_clock_is_reported() {
    let mut ids = IdSource::new();
    let mut exec = Execution::new(&mut ids, 1, 10, None);
    let obj = exec.objects.create();
    exec.threads.threads[0].dpor_vv.v[0] = u64::MAX;
    exec.threads.set_operation(0, Some(obj));
    assert!(matches!(exec.schedule(), Err(Failure::ClockOverflow)));
}

#[test]
fn two_writers_explore_every_order_once() {
    let (runs, _) = explore_two_writers();
    let mut expected: Vec<Vec<(usize, usize)>> = Vec::new();
    for first in 0..4usize {
        for second in (first + 1)..4 {
            let mut order = Vec::new();
            let mut next = [0usize; 2];
            for slot in 0..4 {
                let t = if slot == first || slot == second { 0 } else { 1 };
                order.push((t, next[t]));
                next[t] += 1;
            }
            expected.push(order);
        }
    }
    for order in &expected {
        assert_eq!(runs.iter().filter(|r| *r == order).count(), 1, "order {:?}", order);
    }
    assert_eq!(runs.len(), expected.len());
}

#[test]
fn replay_is_deterministic() {
    let (a, ia) = explore_two_writers();
    let (b, ib) = explore_two_writers();
    assert_eq!(a, b);
    assert_eq!(ia, ib);

    let mut ids1 = IdSource::new();
    let mut ids2 = IdSource::new();
    let mut e1 = Execution::new(&mut ids1, 2, 100, None);
    let mut e2 = Execution::new(&mut ids2, 2, 100, None);
    run_two_writers(&mut e1);
    run_two_writers(&mut e2);
    e1 = e1.step(&mut ids1).unwrap();
    e2 = e2.step(&mut ids2).unwrap();
    let o1 = run_two_writers(&mut e1);
    let o2 = run_two_writers(&mut e2);
    assert_eq!(o1, o2);
    for t in 0..2 {
        assert_eq!(e1.threads.threads[t].state, e2.threads.threads[t].state);
        assert_eq!(dpor(&e1, t), dpor(&e2, t));
        assert_eq!(clock(&e1, t), clock(&e2, t));
    }
    assert_eq!(last_clock(&e1, 0), last_clock(&e2, 0));
}

#[test]
fn replayed_choice_of_missing_thread_is_reported() {
    let mut ids = IdSource::new();
    let mut exec = Execution::new(&mut ids, 2, 10, None);
    exec.path.branches.push(loom::path::Schedule {
        marks: vec![Mark::Skip, Mark::Active],
        preemptions: 0,
    });
    assert!(matches!(exec.schedule(), Err(Failure::Nondeterministic)));
}

#[test]
fn unreleased_raw_allocation_fails_audit() {
    let mut ids = IdSource::new();
    let mut exec = Execution::new(&mut ids, 1, 10, None);
    let a = exec.track_allocation(0x1000);
    let b = exec.track_allocation(0x2000);
    assert_eq!(exec.raw_allocations, vec![(0x1000, a), (0x2000, b)]);
    assert!(exec.release_allocation(0x1000));
    assert_eq!(exec.raw_allocations, vec![(0x2000, b)]);
    assert_eq!(exec.check_for_leaks(), Err(LeakError::Leaked(b)));
    assert!(!exec.release_allocation(0x3000));
    assert!(exec.release_allocation(0x2000));
    assert!(exec.raw_allocations.is_empty());
    assert_eq!(exec.check_for_leaks(), Ok(()));
}

#[test]
fn step_forgets_raw_allocations() {
    let mut ids = IdSource::new();
    let mut exec = Execution::new(&mut ids, 2, 100, None);
    run_two_writers(&mut exec);
    exec.track_allocation(0x10);
    let next = exec.step(&mut ids).unwrap();
    assert!(next.raw_allocations.is_empty());
    assert_eq!(next.objects.entries.len(), 0);
}

#[test]
fn unordered_access_owes_a_turn_at_its_position() {
    let mut ids = IdSource::new();
    let mut exec = Execution::new(&mut ids, 2, 10, None);
    let obj = exec.objects.create();
    exec.new_thread().unwrap();
    exec.threads.set_operation(0, Some(obj));
    exec.schedule().unwrap();
    assert_eq!(exec.path.branches[0].marks, vec![Mark::Active, Mark::Skip]);
    // Thread 1 now wants the object; thread 0's access is not ordered
    // before it, while thread 0's own next access is.
    exec.threads.set_operation(1, Some(obj));
    exec.schedule().unwrap();
    assert_eq!(exec.path.branches[0].marks, vec![Mark::Active, Mark::Pending]);
    assert_eq!(exec.path.branches[1].marks, vec![Mark::Active, Mark::Skip]);
    assert_eq!(exec.path.pos(), 2);
}

#[test]
fn schedule_keeps_critical_flags() {
    let mut ids = IdSource::new();
    let mut exec = Execution::new(&mut ids, 2, 10, None);
    exec.new_thread().unwrap();
    exec.set_critical();
    exec.threads.set_state(0, ThreadState::Yield);
    exec.schedule().unwrap();
    assert_eq!(exec.threads.active_id(), Some(1));
    assert!(exec.threads.threads[0].critical);
    assert!(!exec.threads.threads[1].critical);
}
