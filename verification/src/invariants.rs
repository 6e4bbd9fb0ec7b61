//! What holds of a limiter in every state that the admission protocol reaches.
use crate::limiter::{
    elapsed, longest_window_wait, CanRun, LimiterView, TasksPerInterval, YieldStrategie,
};
use vstd::prelude::*;

verus! {

/// A window whose latest opening is more than one interval old is satisfied,
/// its evaluation closes it and forgets its admissions, and the admission
/// recorded next is the first one of a window that opens then.
pub proof fn lemma_expired_window_starts_over(rule: TasksPerInterval, now: u64, next: u64)
    requires
        rule.expired(now),
    ensures
        rule.satisfied(now),
        rule.evaluated(now).state.task_count == 0,
        rule.evaluated(now).state.interval_start is None,
        rule.evaluated(now).state.queued_task == rule.state.queued_task,
        rule.evaluated(now).admitted(next).state.task_count == 1,
        rule.evaluated(now).admitted(next).state.interval_start == Some(next),
{
}

/// While a window is open and full, it turns every work unit away until more
/// than one interval has passed since it was opened: no window takes more
/// admissions than its capacity.
pub proof fn lemma_full_window_waits_for_expiry(rule: TasksPerInterval, now: u64)
    requires
        rule.state.interval_start is Some,
        rule.state.task_count >= rule.task_count,
    ensures
        rule.satisfied(now) <==> elapsed(rule.state.interval_start.unwrap(), now) > rule.interval,
{
}

/// An evaluation keeps a consistent window consistent, and a satisfied one has
/// room afterwards.
pub proof fn lemma_evaluated_window(rule: TasksPerInterval, now: u64)
    requires
        rule.inv(),
    ensures
        rule.evaluated(now).inv(),
        rule.satisfied(now) ==> rule.evaluated(now).has_room(),
{
}

/// Recording an admission in a consistent window that has room keeps it
/// consistent: its count stays within the capacity.
pub proof fn lemma_admitted_window(rule: TasksPerInterval, now: u64)
    requires
        rule.inv(),
        rule.has_room(),
    ensures
        rule.admitted(now).inv(),
        rule.admitted(now).state.task_count <= rule.task_count,
{
}

/// An evaluation keeps the counters consistent.
pub proof fn lemma_evaluation_keeps_invariant(limiter: LimiterView, now: u64)
    requires
        limiter.inv(),
    ensures
        limiter.evaluated(now).inv(),
        limiter.evaluated(now).state == limiter.state,
{
    let after = limiter.evaluated(now);
    assert forall|i: int| 0 <= i < after.tasks_per_intervals.len() implies (
    #[trigger] after.tasks_per_intervals[i]).inv() by {
        lemma_evaluated_window(limiter.tasks_per_intervals[i], now);
    }
}

/// After the answer `True` the admission can be committed at the time of the
/// evaluation.
pub proof fn lemma_true_answer_makes_ready(limiter: LimiterView, now: u64)
    requires
        limiter.inv(),
        limiter.evaluation(now).outcome == CanRun::True,
    ensures
        limiter.evaluated(now).ready(now),
{
    let after = limiter.evaluated(now);
    assert(limiter.admits(now));
    assert forall|i: int| 0 <= i < after.tasks_per_intervals.len() implies (
    #[trigger] after.tasks_per_intervals[i]).has_room() by {
        assert(limiter.tasks_per_intervals[i].satisfied(now));
        lemma_evaluated_window(limiter.tasks_per_intervals[i], now);
    }
}

/// An admission that can be committed at one time can be committed at any
/// later time, as long as the limiter is not touched in between.
pub proof fn lemma_ready_stays_ready(limiter: LimiterView, earlier: u64, later: u64)
    requires
        limiter.ready(earlier),
        earlier <= later,
    ensures
        limiter.ready(later),
{
}

/// A commit on a limiter that is ready for it keeps the counters consistent:
/// no more work units run than the cap allows, and no window holds more
/// admissions than its capacity.
pub proof fn lemma_commit_keeps_invariant(limiter: LimiterView, now: u64)
    requires
        limiter.inv(),
        limiter.ready(now),
        limiter.state.current_parallelism < usize::MAX,
    ensures
        limiter.counters_have_room(),
        limiter.committed(now).inv(),
{
    let after = limiter.committed(now);
    assert forall|i: int| 0 <= i < limiter.tasks_per_intervals.len() implies (
    #[trigger] limiter.tasks_per_intervals[i]).state.task_count < usize::MAX by {
        assert(limiter.tasks_per_intervals[i].has_room());
    }
    assert forall|i: int| 0 <= i < after.tasks_per_intervals.len() implies (
    #[trigger] after.tasks_per_intervals[i]).inv() by {
        assert(limiter.tasks_per_intervals[i].has_room());
        lemma_admitted_window(limiter.tasks_per_intervals[i], now);
    }
}

/// A release keeps the counters consistent.
pub proof fn lemma_release_keeps_invariant(limiter: LimiterView)
    requires
        limiter.inv(),
        limiter.state.current_parallelism > 0,
    ensures
        limiter.released().inv(),
{
}

/// The release of a work unit takes back what its commit added to the number
/// of running work units, and leaves the configuration and the windows as the
/// commit left them.
pub proof fn lemma_release_undoes_commit(limiter: LimiterView, now: u64)
    requires
        limiter.state.current_parallelism < usize::MAX,
    ensures
        limiter.committed(now).released().state.current_parallelism
            == limiter.state.current_parallelism,
        limiter.committed(now).released().tasks_per_intervals == limiter.committed(
            now,
        ).tasks_per_intervals,
        limiter.committed(now).released().max_parallelism == limiter.max_parallelism,
        limiter.committed(now).released().delay == limiter.delay,
{
}

/// Two admissions that follow one another lie at least `delay` apart: where an
/// evaluation at `asked` answers `True` and the admission is committed at
/// `committed`, not before `asked` and not before the admission that came
/// last, the new `last_run` is at least `delay` after the old one. Evaluations
/// and releases leave `last_run` alone.
pub proof fn lemma_admissions_are_spaced(limiter: LimiterView, asked: u64, committed: u64)
    requires
        limiter.evaluation(asked).outcome == CanRun::True,
        asked <= committed,
        limiter.state.last_run <= committed,
    ensures
        limiter.evaluated(asked).committed(committed).state.last_run - limiter.state.last_run
            >= limiter.delay,
        limiter.evaluated(asked).state.last_run == limiter.state.last_run,
        limiter.released().state.last_run == limiter.state.last_run,
{
    assert(limiter.admits(asked));
}

/// Only a limiter whose cap is set and reached sends a work unit to wait for a
/// release. A limiter without a cap answers by its delay and its windows
/// alone.
pub proof fn lemma_only_a_reached_cap_waits_for_release(limiter: LimiterView, now: u64)
    ensures
        limiter.evaluation(now).outcome == CanRun::False(YieldStrategie::Notify)
            <==> limiter.full(),
        limiter.max_parallelism is None ==> !limiter.full(),
        limiter.max_parallelism is None ==> (limiter.evaluation(now).outcome == CanRun::True
            <==> limiter.delay_met(now) && limiter.windows_satisfied(now)),
        limiter.max_parallelism is None ==> !limiter.evaluation(now).renotify,
{
}

/// The wait that an unsatisfied rule asks for is not negative and fits the
/// range in which waits are handed out.
pub proof fn lemma_window_wait_in_range(rule: TasksPerInterval, now: u64)
    requires
        rule.wf(),
        !rule.satisfied(now),
    ensures
        0 <= rule.wait(now) <= u128::MAX,
{
    let rounds = (rule.state.queued_task / rule.task_count) as int;
    let interval = rule.interval as int;
    assert(0 <= rounds <= 0xffff_ffff_ffff_ffff);
    assert(0 <= rounds * interval <= 0xffff_ffff_ffff_ffff * 0xffff_ffff_ffff_ffff)
        by (nonlinear_arith)
        requires
            0 <= rounds <= 0xffff_ffff_ffff_ffff,
            0 <= interval <= 0xffff_ffff_ffff_ffff,
    ;
}

/// The longest wait among windows is the wait of one of them, or zero, and no
/// unsatisfied window asks for more.
pub proof fn lemma_longest_window_wait(rules: Seq<TasksPerInterval>, now: u64)
    requires
        forall|i: int| 0 <= i < rules.len() ==> (#[trigger] rules[i]).wf(),
    ensures
        0 <= longest_window_wait(rules, now) <= u128::MAX,
        forall|i: int|
            0 <= i < rules.len() && !(#[trigger] rules[i]).satisfied(now) ==> rules[i].wait(now)
                <= longest_window_wait(rules, now),
        longest_window_wait(rules, now) == 0 || exists|i: int|
            0 <= i < rules.len() && !(#[trigger] rules[i]).satisfied(now) && rules[i].wait(now)
                == longest_window_wait(rules, now),
    decreases rules.len(),
{
    if rules.len() > 0 {
        let before = rules.drop_last();
        let rule = rules.last();
        lemma_longest_window_wait(before, now);
        if !rule.satisfied(now) {
            lemma_window_wait_in_range(rule, now);
        }
        assert forall|i: int| 0 <= i < rules.len() && !(#[trigger] rules[i]).satisfied(
            now,
        ) implies rules[i].wait(now) <= longest_window_wait(rules, now) by {
            if i < rules.len() - 1 {
                assert(rules[i] == before[i]);
            }
        }
        if longest_window_wait(rules, now) != 0 {
            if !rule.satisfied(now) && rule.wait(now) > longest_window_wait(before, now) {
                assert(rules[rules.len() - 1] == rule);
            } else {
                let i = choose|i: int|
                    0 <= i < before.len() && !(#[trigger] before[i]).satisfied(now)
                        && before[i].wait(now) == longest_window_wait(before, now);
                assert(rules[i] == before[i]);
            }
        }
    }
}

/// The wait that a limiter hands out is the longest of the waits that its
/// delay rule and its unsatisfied windows ask for: none of them asks for
/// more, one of them asks for exactly this, and it fits the range of the
/// answer.
pub proof fn lemma_required_wait_is_the_longest(limiter: LimiterView, now: u64)
    requires
        limiter.wf(),
    ensures
        0 <= limiter.required_wait(now) <= u128::MAX,
        limiter.delay_wait(now) <= limiter.required_wait(now),
        forall|i: int|
            0 <= i < limiter.tasks_per_intervals.len() && !(
            #[trigger] limiter.tasks_per_intervals[i]).satisfied(now)
                ==> limiter.tasks_per_intervals[i].wait(now) <= limiter.required_wait(now),
        limiter.required_wait(now) == limiter.delay_wait(now) || exists|i: int|
            0 <= i < limiter.tasks_per_intervals.len() && !(
            #[trigger] limiter.tasks_per_intervals[i]).satisfied(now)
                && limiter.tasks_per_intervals[i].wait(now) == limiter.required_wait(now),
{
    lemma_longest_window_wait(limiter.tasks_per_intervals, now);
    let queued = limiter.state.delay_queued_task as int;
    let delay = limiter.delay as int;
    assert(0 <= queued * delay <= 0xffff_ffff_ffff_ffff * 0xffff_ffff_ffff_ffff)
        by (nonlinear_arith)
        requires
            0 <= queued <= 0xffff_ffff_ffff_ffff,
            0 <= delay <= 0xffff_ffff_ffff_ffff,
    ;
}

} // verus!
