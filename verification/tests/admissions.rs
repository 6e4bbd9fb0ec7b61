use task_limiter::admission::{Admission, Phase, Step};
use task_limiter::limiter::{CanRun, Limiter, YieldStrategie};
use task_limiter::order::lock_order;

#[test]
fn lock_order_is_ascending_by_identity() {
    assert_eq!(lock_order(&vec![30, 10, 20]), vec![1, 2, 0]);
    assert_eq!(lock_order(&vec![1, 2, 3, 4]), vec![0, 1, 2, 3]);
    assert_eq!(lock_order(&vec![4, 3, 2, 1]), vec![3, 2, 1, 0]);
    assert_eq!(lock_order(&vec![usize::MAX, 0]), vec![1, 0]);
}

#[test]
fn lock_order_of_nothing_is_empty() {
    assert_eq!(lock_order(&vec![]), Vec::<usize>::new());
    assert_eq!(lock_order(&vec![5]), vec![0]);
}

#[test]
fn lock_order_keeps_equal_identities_as_named() {
    assert_eq!(lock_order(&vec![7, 3, 7, 3, 7]), vec![1, 3, 0, 2, 4]);
}

#[test]
fn differently_ordered_requests_lock_in_one_order() {
    let l1 = 0x1000;
    let l2 = 0x2000;
    let l3 = 0x3000;
    let a = vec![l1, l2, l3];
    let b = vec![l3, l1, l2];
    let c = vec![l2, l3];
    let locked = |keys: &Vec<usize>| -> Vec<usize> {
        lock_order(keys).iter().map(|&at| keys[at]).collect()
    };
    assert_eq!(locked(&a), vec![l1, l2, l3]);
    assert_eq!(locked(&b), vec![l1, l2, l3]);
    assert_eq!(locked(&c), vec![l2, l3]);
}

#[test]
fn new_admission_holds_nothing() {
    let admission = Admission::new(&vec![9, 4]);
    assert_eq!(admission.phase(), Phase::Evaluating);
    assert_eq!(admission.held(), 0);
    assert_eq!(admission.order(), &vec![1, 0]);
}

#[test]
fn admission_without_limiters_commits_at_once() {
    let mut admission = Admission::new(&vec![]);
    assert_eq!(admission.start(), Step::Commit);
    assert_eq!(admission.phase(), Phase::Admitted);
    admission.finish();
    assert_eq!(admission.phase(), Phase::Released);
}

#[test]
fn admission_asks_every_limiter_in_locking_order() {
    let mut admission = Admission::new(&vec![30, 10, 20]);
    assert_eq!(admission.start(), Step::Evaluate(1));
    assert_eq!(admission.evaluated(CanRun::True), Step::Evaluate(2));
    assert_eq!(admission.held(), 1);
    assert_eq!(admission.evaluated(CanRun::True), Step::Evaluate(0));
    assert_eq!(admission.held(), 2);
    assert_eq!(admission.phase(), Phase::Evaluating);
    assert_eq!(admission.evaluated(CanRun::True), Step::Commit);
    assert_eq!(admission.held(), 3);
    assert_eq!(admission.phase(), Phase::Admitted);
    admission.finish();
    assert_eq!(admission.phase(), Phase::Released);
    assert_eq!(admission.order(), &vec![1, 2, 0]);
}

#[test]
fn refusal_drops_everything_and_names_the_limiter() {
    let mut admission = Admission::new(&vec![30, 10, 20]);
    assert_eq!(admission.start(), Step::Evaluate(1));
    assert_eq!(admission.evaluated(CanRun::True), Step::Evaluate(2));
    assert_eq!(
        admission.evaluated(CanRun::False(YieldStrategie::Duration(17))),
        Step::Backoff(2, YieldStrategie::Duration(17))
    );
    assert_eq!(admission.held(), 0);
    assert_eq!(admission.phase(), Phase::Evaluating);
    // the next attempt starts with the first limiter again
    assert_eq!(admission.start(), Step::Evaluate(1));
    assert_eq!(
        admission.evaluated(CanRun::False(YieldStrategie::Notify)),
        Step::Backoff(1, YieldStrategie::Notify)
    );
    assert_eq!(admission.held(), 0);
    assert_eq!(admission.start(), Step::Evaluate(1));
    assert_eq!(admission.evaluated(CanRun::True), Step::Evaluate(2));
    assert_eq!(admission.evaluated(CanRun::True), Step::Evaluate(0));
    assert_eq!(admission.evaluated(CanRun::True), Step::Commit);
}

/// Runs one work unit to its admission on a clock that only this test moves,
/// and returns the time of the commit.
fn run_to_admission(limiters: &mut Vec<Limiter>, named: &Vec<usize>, clock: &mut u64) -> u64 {
    let keys: Vec<usize> = named.iter().map(|&at| at * 8).collect();
    let mut admission = Admission::new(&keys);
    loop {
        let mut step = admission.start();
        let mut locked = Vec::new();
        loop {
            match step {
                Step::Evaluate(at) => {
                    locked.push(named[at]);
                    let verdict = limiters[named[at]].can_run(*clock);
                    step = admission.evaluated(verdict.outcome);
                },
                Step::Commit => {
                    assert_eq!(locked.len(), named.len());
                    for pair in locked.windows(2) {
                        assert!(pair[0] < pair[1]);
                    }
                    for &at in locked.iter() {
                        limiters[at].commit(*clock);
                    }
                    return *clock;
                },
                Step::Backoff(_, YieldStrategie::Duration(wait)) => {
                    *clock += wait as u64 + 1;
                    break;
                },
                Step::Backoff(at, YieldStrategie::Notify) => {
                    // the work unit that holds the slot ends now
                    limiters[named[at]].release();
                    break;
                },
            }
        }
    }
}

#[test]
fn overlapping_requests_in_any_order_all_complete() {
    let mut limiters = vec![Limiter::new(0), Limiter::new(0)];
    limiters[0].max_parallelism = Some(1);
    limiters[1].delay = 100;
    let mut clock = 0u64;
    let mut commits = Vec::new();
    for round in 0..10 {
        let named = if round % 2 == 0 { vec![0, 1] } else { vec![1, 0] };
        commits.push(run_to_admission(&mut limiters, &named, &mut clock));
    }
    assert_eq!(commits.len(), 10);
    for pair in commits.windows(2) {
        assert!(pair[1] - pair[0] >= 100);
    }
    assert_eq!(limiters[0].state.current_parallelism, 1);
    assert_eq!(limiters[1].state.current_parallelism, 10);
}

#[test]
fn partial_success_commits_nothing() {
    let mut limiters = vec![Limiter::new(0), Limiter::new(0)];
    limiters[1].max_parallelism = Some(0);
    let keys = vec![1usize, 2];
    let mut admission = Admission::new(&keys);
    assert_eq!(admission.start(), Step::Evaluate(0));
    let first = limiters[0].can_run(5);
    assert_eq!(first.outcome, CanRun::True);
    assert_eq!(admission.evaluated(first.outcome), Step::Evaluate(1));
    let second = limiters[1].can_run(5);
    assert_eq!(
        admission.evaluated(second.outcome),
        Step::Backoff(1, YieldStrategie::Notify)
    );
    assert_eq!(admission.held(), 0);
    assert_eq!(limiters[0].state.current_parallelism, 0);
    assert_eq!(limiters[0].state.last_run, 0);
    assert_eq!(limiters[1].state.current_parallelism, 0);
}

#[test]
fn single_limiter_is_the_same_protocol() {
    let mut limiter = Limiter::new(0);
    limiter.delay = 40;
    let mut admission = Admission::new(&vec![0xbeef]);
    assert_eq!(admission.start(), Step::Evaluate(0));
    let verdict = limiter.can_run(10);
    assert_eq!(
        admission.evaluated(verdict.outcome),
        Step::Backoff(0, YieldStrategie::Duration(30))
    );
    assert_eq!(admission.start(), Step::Evaluate(0));
    let verdict = limiter.can_run(40);
    assert_eq!(admission.evaluated(verdict.outcome), Step::Commit);
    limiter.commit(41);
    assert_eq!(limiter.state.current_parallelism, 1);
    admission.finish();
    limiter.release();
    assert_eq!(limiter.state.current_parallelism, 0);
    assert_eq!(admission.phase(), Phase::Released);
}
