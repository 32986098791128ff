use loom::path::{Mark, Path, PathError};
use loom::vv::VersionVec;

#[test]
fn join_takes_entrywise_maximum() {
    let mut a = VersionVec { v: vec![1, 5, 0] };
    let b = VersionVec { v: vec![3, 2, 0] };
    a.join(&b);
    assert_eq!(a.v, vec![3, 5, 0]);
}

#[test]
fn happened_before_is_entrywise() {
    let a = VersionVec { v: vec![1, 2] };
    let b = VersionVec { v: vec![1, 3] };
    let c = VersionVec { v: vec![2, 0] };
    assert!(a.le(&b));
    assert!(!b.le(&a));
    assert!(!a.le(&c));
    assert!(a.le(&a));
}

#[test]
fn increment_stops_at_largest_value() {
    let mut a = VersionVec::new(2);
    assert!(a.increment(1));
    assert_eq!(a.v, vec![0, 1]);
    a.v[0] = u64::MAX;
    assert!(!a.increment(0));
    assert_eq!(a.v, vec![u64::MAX, 1]);
}

#[test]
fn fresh_position_prefers_active_then_yield() {
    let mut p = Path::new(10, None);
    assert_eq!(p.branch_thread(vec![Mark::Skip, Mark::Active]), Ok(Some(1)));
    assert_eq!(p.branch_thread(vec![Mark::Disabled, Mark::Yield]), Ok(Some(1)));
    assert_eq!(p.branch_thread(vec![Mark::Disabled, Mark::Disabled]), Ok(None));
    assert_eq!(p.pos(), 3);
}

#[test]
fn backtrack_then_step_replays_owed_choice() {
    let mut p = Path::new(10, None);
    assert_eq!(p.branch_thread(vec![Mark::Active, Mark::Skip]), Ok(Some(0)));
    assert_eq!(p.branch_thread(vec![Mark::Active, Mark::Skip]), Ok(Some(0)));
    p.backtrack(0, 1);
    assert_eq!(p.branches[0].marks, vec![Mark::Active, Mark::Pending]);
    assert!(p.step());
    assert_eq!(p.pos(), 0);
    assert_eq!(p.branches.len(), 1);
    assert_eq!(p.branches[0].marks, vec![Mark::Visited, Mark::Active]);
    assert_eq!(p.branch_thread(vec![Mark::Active, Mark::Skip]), Ok(Some(1)));
    assert!(!p.step());
}

#[test]
fn backtrack_on_blocked_thread_owes_every_skipped_one() {
    let mut p = Path::new(10, None);
    p.branch_thread(vec![Mark::Active, Mark::Disabled, Mark::Skip]).unwrap();
    p.backtrack(0, 1);
    assert_eq!(p.branches[0].marks, vec![Mark::Active, Mark::Disabled, Mark::Pending]);
}

#[test]
fn preemption_bound_drops_backtracks() {
    let mut p = Path::new(10, Some(0));
    p.branch_thread(vec![Mark::Active, Mark::Skip]).unwrap();
    p.backtrack(0, 1);
    assert_eq!(p.branches[0].marks, vec![Mark::Active, Mark::Skip]);
    assert!(!p.step());
}

#[test]
fn branch_limit_refuses_fresh_position() {
    let mut p = Path::new(1, None);
    assert_eq!(p.branch_thread(vec![Mark::Active]), Ok(Some(0)));
    assert_eq!(p.branch_thread(vec![Mark::Active]), Err(PathError::BranchLimit));
}
