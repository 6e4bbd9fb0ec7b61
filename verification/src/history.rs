//! Histories of one limiter: what holds after any number of evaluations,
//! commits and releases by any number of work units.
use crate::invariants::{
    lemma_commit_keeps_invariant, lemma_evaluation_keeps_invariant, lemma_ready_stays_ready,
    lemma_release_keeps_invariant, lemma_true_answer_makes_ready,
};
use crate::limiter::{CanRun, LimiterView};
use vstd::prelude::*;

verus! {

/// One access to a limiter by a work unit that holds it exclusively from the
/// beginning of the access to its end.
pub enum Event {
    /// The limiter was evaluated at this time, and the work unit did not go on
    /// to commit: this limiter or another one has turned it away.
    Evaluated(u64),
    /// The limiter was evaluated at the first time and answered `True`, and the
    /// admission was committed at the second time.
    Admitted(u64, u64),
    /// A work unit was released.
    Released,
}

impl LimiterView {
    /// The admission protocol lets `event` happen in this state: it commits
    /// only after the answer `True`, on a clock that does not run backwards
    /// and while the admission can still be counted, and it releases only
    /// what was committed.
    pub open spec fn allows(self, event: Event) -> bool {
        match event {
            Event::Evaluated(_) => true,
            Event::Admitted(asked, committed) => {
                &&& self.evaluation(asked).outcome == CanRun::True
                &&& asked <= committed
                &&& self.state.current_parallelism < usize::MAX
            },
            Event::Released => self.state.current_parallelism > 0,
        }
    }

    /// The limiter after `event`.
    pub open spec fn after(self, event: Event) -> LimiterView {
        match event {
            Event::Evaluated(now) => self.evaluated(now),
            Event::Admitted(asked, committed) => self.evaluated(asked).committed(committed),
            Event::Released => self.released(),
        }
    }

    /// The limiter after `events`, the earliest first.
    pub open spec fn after_all(self, events: Seq<Event>) -> LimiterView
        decreases events.len(),
    {
        if events.len() == 0 {
            self
        } else {
            self.after_all(events.drop_last()).after(events.last())
        }
    }

    /// The admission protocol lets `events` happen one after the other,
    /// starting in this state.
    pub open spec fn allows_all(self, events: Seq<Event>) -> bool
        decreases events.len(),
    {
        events.len() == 0 || (self.allows_all(events.drop_last()) && self.after_all(
            events.drop_last(),
        ).allows(events.last()))
    }
}

/// How many of `events` are admissions.
pub open spec fn admissions(events: Seq<Event>) -> nat
    decreases events.len(),
{
    if events.len() == 0 {
        0
    } else if events.last() is Admitted {
        admissions(events.drop_last()) + 1
    } else {
        admissions(events.drop_last())
    }
}

/// How many of `events` are releases.
pub open spec fn releases(events: Seq<Event>) -> nat
    decreases events.len(),
{
    if events.len() == 0 {
        0
    } else if events.last() is Released {
        releases(events.drop_last()) + 1
    } else {
        releases(events.drop_last())
    }
}

/// Whatever the work units do within the protocol, and in whatever order, a
/// limiter that starts consistent stays consistent: at no time do more work
/// units run than its cap allows, and at no time does a window hold more
/// admissions than its capacity. The configuration never changes.
pub proof fn lemma_limits_hold_throughout(limiter: LimiterView, events: Seq<Event>)
    requires
        limiter.inv(),
        limiter.allows_all(events),
    ensures
        limiter.after_all(events).inv(),
        limiter.after_all(events).max_parallelism == limiter.max_parallelism,
        limiter.after_all(events).delay == limiter.delay,
        limiter.max_parallelism matches Some(max) ==> limiter.after_all(
            events,
        ).state.current_parallelism <= max,
        limiter.after_all(events).tasks_per_intervals.len() == limiter.tasks_per_intervals.len(),
        forall|i: int|
            0 <= i < limiter.tasks_per_intervals.len() ==> {
                let rule = #[trigger] limiter.after_all(events).tasks_per_intervals[i];
                &&& rule.task_count == limiter.tasks_per_intervals[i].task_count
                &&& rule.interval == limiter.tasks_per_intervals[i].interval
                &&& rule.state.task_count <= rule.task_count
            },
    decreases events.len(),
{
    if events.len() > 0 {
        let before = limiter.after_all(events.drop_last());
        lemma_limits_hold_throughout(limiter, events.drop_last());
        match events.last() {
            Event::Evaluated(now) => {
                lemma_evaluation_keeps_invariant(before, now);
            },
            Event::Admitted(asked, committed) => {
                lemma_evaluation_keeps_invariant(before, asked);
                lemma_true_answer_makes_ready(before, asked);
                lemma_ready_stays_ready(before.evaluated(asked), asked, committed);
                lemma_commit_keeps_invariant(before.evaluated(asked), committed);
            },
            Event::Released => {
                lemma_release_keeps_invariant(before);
            },
        }
        let after = limiter.after_all(events);
        assert forall|i: int| 0 <= i < limiter.tasks_per_intervals.len() implies {
            let rule = #[trigger] after.tasks_per_intervals[i];
            &&& rule.task_count == limiter.tasks_per_intervals[i].task_count
            &&& rule.interval == limiter.tasks_per_intervals[i].interval
            &&& rule.state.task_count <= rule.task_count
        } by {
            assert(after.tasks_per_intervals[i].inv());
            assert(before.tasks_per_intervals[i].task_count
                == limiter.tasks_per_intervals[i].task_count);
        }
    } else {
        assert forall|i: int| 0 <= i < limiter.tasks_per_intervals.len() implies (
        #[trigger] limiter.tasks_per_intervals[i]).state.task_count
            <= limiter.tasks_per_intervals[i].task_count by {
            assert(limiter.tasks_per_intervals[i].inv());
        }
    }
}

/// No admission is lost and none is counted twice: after any history within
/// the protocol, the number of running work units is the number at the start,
/// plus one for every admission, minus one for every release.
pub proof fn lemma_every_admission_counts_once(limiter: LimiterView, events: Seq<Event>)
    requires
        limiter.allows_all(events),
    ensures
        limiter.after_all(events).state.current_parallelism == limiter.state.current_parallelism
            + admissions(events) - releases(events),
    decreases events.len(),
{
    if events.len() > 0 {
        lemma_every_admission_counts_once(limiter, events.drop_last());
    }
}

/// When the latest admission before the end of `events` was committed, or
/// `start` where there is none among them.
pub open spec fn latest_admission(start: u64, events: Seq<Event>) -> u64
    decreases events.len(),
{
    if events.len() == 0 {
        start
    } else {
        match events.last() {
            Event::Admitted(_, committed) => committed,
            _ => latest_admission(start, events.drop_last()),
        }
    }
}

/// A limiter remembers the latest admission, and nothing but a commit moves
/// that time.
pub proof fn lemma_last_run_is_the_latest_admission(limiter: LimiterView, events: Seq<Event>)
    ensures
        limiter.after_all(events).state.last_run == latest_admission(
            limiter.state.last_run,
            events,
        ),
        limiter.after_all(events).delay == limiter.delay,
    decreases events.len(),
{
    if events.len() > 0 {
        lemma_last_run_is_the_latest_admission(limiter, events.drop_last());
    }
}

/// Admissions keep their distance: in any history within the protocol, an
/// admission that is not committed before the one that came last is committed
/// at least `delay` ticks after it.
pub proof fn lemma_admissions_keep_their_distance(
    limiter: LimiterView,
    events: Seq<Event>,
    asked: u64,
    committed: u64,
)
    requires
        limiter.allows_all(events.push(Event::Admitted(asked, committed))),
        latest_admission(limiter.state.last_run, events) <= committed,
    ensures
        committed - latest_admission(limiter.state.last_run, events) >= limiter.delay,
{
    let all = events.push(Event::Admitted(asked, committed));
    assert(all.drop_last() =~= events);
    assert(all.last() == Event::Admitted(asked, committed));
    lemma_last_run_is_the_latest_admission(limiter, events);
    let before = limiter.after_all(events);
    assert(before.allows(Event::Admitted(asked, committed)));
    assert(before.admits(asked));
}

} // verus!
