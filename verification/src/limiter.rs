//! Limiters and their rolling windows: evaluation, commit and release.
use crate::invariants::{
    lemma_commit_keeps_invariant, lemma_evaluation_keeps_invariant,
    lemma_release_keeps_invariant, lemma_true_answer_makes_ready,
};
use vstd::prelude::*;

verus! {

/// Ticks that lie between `since` and `now`; zero when `now` is the earlier one.
pub open spec fn elapsed(since: u64, now: u64) -> u64 {
    if now >= since {
        (now - since) as u64
    } else {
        0
    }
}

/// Computes [`elapsed`].
pub fn elapsed_since(since: u64, now: u64) -> (ticks: u64)
    ensures
        ticks == elapsed(since, now),
{
    if now >= since {
        now - since
    } else {
        0
    }
}

/// The live counters of one window.
#[derive(Clone, Copy, Debug)]
pub struct StateTasksPerInterval {
    /// Admissions recorded since the window was opened.
    pub task_count: usize,
    /// Work units that wait on this window.
    pub queued_task: usize,
    /// When the window was opened by its first admission; `None` while it is closed.
    pub interval_start: Option<u64>,
}

impl StateTasksPerInterval {
    /// A closed window without admissions.
    pub fn new() -> (state: Self)
        ensures
            state == (StateTasksPerInterval { task_count: 0, queued_task: 0, interval_start: None }),
    {
        StateTasksPerInterval { task_count: 0, queued_task: 0, interval_start: None }
    }
}

/// A rolling window: at most `task_count` admissions while one window of
/// `interval` ticks is open.
#[derive(Clone, Copy, Debug)]
pub struct TasksPerInterval {
    /// The capacity of one window; positive.
    pub task_count: usize,
    /// The length of one window in ticks.
    pub interval: u64,
    /// The live counters.
    pub state: StateTasksPerInterval,
}

impl TasksPerInterval {
    /// The configuration is valid: the capacity is positive.
    pub open spec fn wf(self) -> bool {
        self.task_count > 0
    }

    /// The counters are consistent: a closed window holds no admission, an open
    /// one at most as many as the capacity.
    pub open spec fn inv(self) -> bool {
        &&& self.wf()
        &&& self.state.task_count <= self.task_count
        &&& self.state.interval_start is None ==> self.state.task_count == 0
    }

    /// The window has recorded fewer admissions than its capacity.
    pub open spec fn has_room(self) -> bool {
        self.state.task_count < self.task_count
    }

    /// The window is open and more than `interval` ticks old.
    pub open spec fn expired(self, now: u64) -> bool {
        match self.state.interval_start {
            Some(start) => elapsed(start, now) > self.interval,
            None => false,
        }
    }

    /// The rule lets one more admission pass at `now`: its window is closed, or
    /// expired, or not yet full.
    pub open spec fn satisfied(self, now: u64) -> bool {
        self.state.interval_start is None || self.expired(now) || self.state.task_count
            < self.task_count
    }

    /// How long an unsatisfied rule asks to wait: the rest of the open window,
    /// and one more interval for every `task_count` queued work units.
    pub open spec fn wait(self, now: u64) -> int {
        self.interval - elapsed(self.state.interval_start.unwrap(), now) + (self.state.queued_task
            / self.task_count) * self.interval
    }

    /// The rule after an evaluation at `now`: an expired window is closed and
    /// its admissions are forgotten, anything else stays.
    pub open spec fn evaluated(self, now: u64) -> TasksPerInterval {
        if self.expired(now) {
            TasksPerInterval {
                state: StateTasksPerInterval {
                    task_count: 0,
                    interval_start: None,
                    ..self.state
                },
                ..self
            }
        } else {
            self
        }
    }

    /// The rule after one admission at `now` was recorded: one more admission,
    /// and a closed window opens at `now`.
    pub open spec fn admitted(self, now: u64) -> TasksPerInterval {
        TasksPerInterval {
            state: StateTasksPerInterval {
                task_count: (self.state.task_count + 1) as usize,
                interval_start: match self.state.interval_start {
                    Some(start) => Some(start),
                    None => Some(now),
                },
                ..self.state
            },
            ..self
        }
    }

    /// A rule with a closed window.
    pub fn new(task_count: usize, interval: u64) -> (rule: Self)
        requires
            task_count > 0,
        ensures
            rule.task_count == task_count,
            rule.interval == interval,
            rule.state == (StateTasksPerInterval {
                task_count: 0,
                queued_task: 0,
                interval_start: None,
            }),
            rule.inv(),
    {
        TasksPerInterval { task_count, interval, state: StateTasksPerInterval::new() }
    }

    /// Evaluates the rule at `now`. `None` says that it is satisfied, `Some`
    /// holds the wait that it asks for. An expired window is closed on the way.
    pub fn evaluate(&mut self, now: u64) -> (wait: Option<u128>)
        requires
            old(self).wf(),
        ensures
            *final(self) == old(self).evaluated(now),
            wait is None <==> old(self).satisfied(now),
            wait matches Some(ticks) ==> ticks == old(self).wait(now),
    {
        match self.state.interval_start {
            None => None,
            Some(start) => {
                let since = elapsed_since(start, now);
                if since > self.interval {
                    self.state.interval_start = None;
                    self.state.task_count = 0;
                    None
                } else if self.state.task_count >= self.task_count {
                    let rounds = (self.state.queued_task / self.task_count) as u128;
                    let interval = self.interval as u128;
                    assert(rounds * interval <= 0xffff_ffff_ffff_ffff * 0xffff_ffff_ffff_ffff)
                        by (nonlinear_arith)
                        requires
                            rounds <= 0xffff_ffff_ffff_ffff,
                            interval <= 0xffff_ffff_ffff_ffff,
                    ;
                    Some((self.interval - since) as u128 + rounds * interval)
                } else {
                    None
                }
            },
        }
    }

    /// Records one admission at `now`.
    pub fn record_admission(&mut self, now: u64)
        requires
            old(self).state.task_count < usize::MAX,
        ensures
            *final(self) == old(self).admitted(now),
    {
        self.state.task_count = self.state.task_count + 1;
        if self.state.interval_start.is_none() {
            self.state.interval_start = Some(now);
        }
    }
}

/// The live counters of a limiter.
#[derive(Clone, Copy, Debug)]
pub struct State {
    /// Work units that were admitted and have not been released yet.
    pub current_parallelism: usize,
    /// When the latest admission was committed.
    pub last_run: u64,
    /// Admissions committed since the latest release; each one lengthens the
    /// wait that the delay rule asks for.
    pub delay_queued_task: usize,
}

impl State {
    /// The counters of a limiter that is created at `now`: nothing runs, and
    /// the delay counts from `now`.
    pub fn new(now: u64) -> (state: Self)
        ensures
            state == (State { current_parallelism: 0, last_run: now, delay_queued_task: 0 }),
    {
        State { current_parallelism: 0, last_run: now, delay_queued_task: 0 }
    }
}

/// How a work unit that was turned away has to wait before it asks again.
#[derive(Clone, Copy, Debug, PartialEq, Eq, Structural)]
pub enum YieldStrategie {
    /// Sleep for this many ticks.
    Duration(u128),
    /// Wait until the limiter signals a release.
    Notify,
}

/// The answer of a limiter to "may one more work unit run now".
#[derive(Clone, Copy, Debug, PartialEq, Eq, Structural)]
pub enum CanRun {
    /// It may; the caller commits the admission while it still holds the limiter.
    True,
    /// It may not, and this is how to wait.
    False(YieldStrategie),
}

/// What one evaluation of a limiter yields.
#[derive(Clone, Copy, Debug, PartialEq, Eq, Structural)]
pub struct Evaluation {
    /// The answer.
    pub outcome: CanRun,
    /// Whether the caller has to signal the limiter's release notification once
    /// more, so that a second waiter is woken while there is room for it.
    pub renotify: bool,
}

/// A limiter: an optional cap on parallelism, a minimum delay between two
/// admissions, and any number of rolling windows.
#[derive(Debug)]
pub struct Limiter {
    /// The cap on work units that run at the same time; `None` for no cap.
    pub max_parallelism: Option<usize>,
    /// The minimum number of ticks between two admissions.
    pub delay: u64,
    /// The live counters.
    pub state: State,
    /// The rolling windows, all of which have to be satisfied.
    pub tasks_per_intervals: Vec<TasksPerInterval>,
}

/// A limiter as a mathematical value.
pub struct LimiterView {
    pub max_parallelism: Option<usize>,
    pub delay: u64,
    pub state: State,
    pub tasks_per_intervals: Seq<TasksPerInterval>,
}

impl View for Limiter {
    type V = LimiterView;

    open spec fn view(&self) -> LimiterView {
        LimiterView {
            max_parallelism: self.max_parallelism,
            delay: self.delay,
            state: self.state,
            tasks_per_intervals: self.tasks_per_intervals@,
        }
    }
}

/// The longest wait that the unsatisfied rules among `rules` ask for at `now`;
/// zero when all are satisfied.
pub open spec fn longest_window_wait(rules: Seq<TasksPerInterval>, now: u64) -> int
    decreases rules.len(),
{
    if rules.len() == 0 {
        0
    } else {
        let before = longest_window_wait(rules.drop_last(), now);
        let rule = rules.last();
        if !rule.satisfied(now) && rule.wait(now) > before {
            rule.wait(now)
        } else {
            before
        }
    }
}

impl LimiterView {
    /// The configuration is valid: every window has a positive capacity.
    pub open spec fn wf(self) -> bool {
        forall|i: int|
            0 <= i < self.tasks_per_intervals.len() ==> (#[trigger] self.tasks_per_intervals[i]).wf()
    }

    /// The counters are consistent: no more work units run than the cap
    /// allows, the delay rule counts no more admissions than work units run,
    /// and every window is consistent.
    pub open spec fn inv(self) -> bool {
        &&& self.max_parallelism matches Some(max) ==> self.state.current_parallelism <= max
        &&& self.state.delay_queued_task <= self.state.current_parallelism
        &&& forall|i: int|
            0 <= i < self.tasks_per_intervals.len() ==> (#[trigger] self.tasks_per_intervals[i]).inv()
    }

    /// The cap on parallelism is set and reached.
    pub open spec fn full(self) -> bool {
        match self.max_parallelism {
            Some(max) => self.state.current_parallelism >= max,
            None => false,
        }
    }

    /// The cap on parallelism is set, and after one more admission there is
    /// still room for another.
    pub open spec fn spare_room(self) -> bool {
        match self.max_parallelism {
            Some(max) => self.state.current_parallelism + 1 < max,
            None => false,
        }
    }

    /// At least `delay` ticks have passed since the latest admission.
    pub open spec fn delay_met(self, now: u64) -> bool {
        elapsed(self.state.last_run, now) >= self.delay
    }

    /// Every window is satisfied at `now`.
    pub open spec fn windows_satisfied(self, now: u64) -> bool {
        forall|i: int|
            0 <= i < self.tasks_per_intervals.len() ==> (
            #[trigger] self.tasks_per_intervals[i]).satisfied(now)
    }

    /// One more work unit may run at `now`.
    pub open spec fn admits(self, now: u64) -> bool {
        !self.full() && self.delay_met(now) && self.windows_satisfied(now)
    }

    /// An admission can be committed at `now`: the cap is not reached, the
    /// delay is met, and every window has room.
    pub open spec fn ready(self, now: u64) -> bool {
        &&& !self.full()
        &&& self.delay_met(now)
        &&& forall|i: int|
            0 <= i < self.tasks_per_intervals.len() ==> (
            #[trigger] self.tasks_per_intervals[i]).has_room()
    }

    /// The wait that the delay rule asks for at `now`: the rest of the delay,
    /// and one more delay for every admission since the latest release; zero
    /// when the delay is met.
    pub open spec fn delay_wait(self, now: u64) -> int {
        if self.delay_met(now) {
            0
        } else {
            self.delay - elapsed(self.state.last_run, now) + self.state.delay_queued_task
                * self.delay
        }
    }

    /// The longest wait that the delay rule or a window asks for at `now`.
    pub open spec fn required_wait(self, now: u64) -> int {
        let windows = longest_window_wait(self.tasks_per_intervals, now);
        if self.delay_wait(now) > windows {
            self.delay_wait(now)
        } else {
            windows
        }
    }

    /// What an evaluation at `now` answers.
    pub open spec fn evaluation(self, now: u64) -> Evaluation {
        if self.full() {
            Evaluation { outcome: CanRun::False(YieldStrategie::Notify), renotify: false }
        } else if self.admits(now) {
            Evaluation { outcome: CanRun::True, renotify: self.spare_room() }
        } else {
            Evaluation {
                outcome: CanRun::False(YieldStrategie::Duration(self.required_wait(now) as u128)),
                renotify: self.spare_room(),
            }
        }
    }

    /// The limiter after an evaluation at `now`: unless the cap on parallelism
    /// ended the evaluation at once, every window was evaluated.
    pub open spec fn evaluated(self, now: u64) -> LimiterView {
        if self.full() {
            self
        } else {
            LimiterView {
                tasks_per_intervals: self.tasks_per_intervals.map_values(
                    |rule: TasksPerInterval| rule.evaluated(now),
                ),
                ..self
            }
        }
    }
}

impl LimiterView {
    /// No counter is at the end of its range, so that one more admission can
    /// be counted.
    pub open spec fn counters_have_room(self) -> bool {
        &&& self.state.current_parallelism < usize::MAX
        &&& self.state.delay_queued_task < usize::MAX
        &&& forall|i: int|
            0 <= i < self.tasks_per_intervals.len() ==> (
            #[trigger] self.tasks_per_intervals[i]).state.task_count < usize::MAX
    }

    /// The limiter after an admission at `now` was committed: one more work
    /// unit runs, the delay counts from `now`, and every window has recorded
    /// the admission.
    pub open spec fn committed(self, now: u64) -> LimiterView {
        LimiterView {
            state: State {
                current_parallelism: (self.state.current_parallelism + 1) as usize,
                last_run: now,
                delay_queued_task: (self.state.delay_queued_task + 1) as usize,
            },
            tasks_per_intervals: self.tasks_per_intervals.map_values(
                |rule: TasksPerInterval| rule.admitted(now),
            ),
            ..self
        }
    }

    /// The limiter after one work unit was released: one fewer runs, and the
    /// delay rule forgets the admissions that lengthened its wait. The windows
    /// keep their counts.
    pub open spec fn released(self) -> LimiterView {
        LimiterView {
            state: State {
                current_parallelism: (self.state.current_parallelism - 1) as usize,
                delay_queued_task: 0,
                ..self.state
            },
            ..self
        }
    }
}

impl Limiter {
    /// A limiter created at `now`, without a cap, a delay or windows.
    pub fn new(now: u64) -> (limiter: Self)
        ensures
            limiter@ == (LimiterView {
                max_parallelism: None,
                delay: 0,
                state: State { current_parallelism: 0, last_run: now, delay_queued_task: 0 },
                tasks_per_intervals: Seq::empty(),
            }),
            limiter@.wf(),
            limiter@.inv(),
    {
        Limiter {
            max_parallelism: None,
            delay: 0,
            state: State::new(now),
            tasks_per_intervals: Vec::new(),
        }
    }

    /// Whether the configuration is valid: every window has a positive
    /// capacity.
    pub fn is_valid(&self) -> (valid: bool)
        ensures
            valid == self@.wf(),
    {
        let n = self.tasks_per_intervals.len();
        let mut i: usize = 0;
        while i < n
            invariant
                i <= n,
                n == self.tasks_per_intervals.len(),
                forall|j: int| 0 <= j < i ==> (#[trigger] self.tasks_per_intervals[j]).wf(),
            decreases n - i,
        {
            if self.tasks_per_intervals[i].task_count == 0 {
                assert(!self@.tasks_per_intervals[i as int].wf());
                return false;
            }
            i = i + 1;
        }
        true
    }

    /// Whether one more admission can be counted: no counter is at the end of
    /// its range.
    pub fn has_counter_room(&self) -> (room: bool)
        ensures
            room == self@.counters_have_room(),
    {
        if self.state.current_parallelism == usize::MAX || self.state.delay_queued_task
            == usize::MAX {
            return false;
        }
        let n = self.tasks_per_intervals.len();
        let mut i: usize = 0;
        while i < n
            invariant
                i <= n,
                n == self.tasks_per_intervals.len(),
                forall|j: int|
                    0 <= j < i ==> (#[trigger] self.tasks_per_intervals[j]).state.task_count
                        < usize::MAX,
            decreases n - i,
        {
            if self.tasks_per_intervals[i].state.task_count == usize::MAX {
                assert(self@.tasks_per_intervals[i as int].state.task_count == usize::MAX);
                return false;
            }
            i = i + 1;
        }
        true
    }

    /// Evaluates the limiter at `now`, for a caller that holds it exclusively.
    ///
    /// A reached cap answers at once, with the order to wait for a release.
    /// Otherwise the delay rule and every window are evaluated, expired windows
    /// are closed, and the answer is either `True` or the longest wait that any
    /// of them asks for.
    pub fn can_run(&mut self, now: u64) -> (verdict: Evaluation)
        requires
            old(self)@.wf(),
        ensures
            verdict == old(self)@.evaluation(now),
            final(self)@ == old(self)@.evaluated(now),
            final(self)@.wf(),
            old(self)@.inv() ==> final(self)@.inv(),
            old(self)@.inv() && verdict.outcome == CanRun::True ==> final(self)@.ready(now),
    {
        let ghost before = self@;
        proof {
            if before.inv() {
                lemma_evaluation_keeps_invariant(before, now);
                if before.evaluation(now).outcome == CanRun::True {
                    lemma_true_answer_makes_ready(before, now);
                }
            }
            assert forall|i: int| 0 <= i < before.tasks_per_intervals.len() implies (
            #[trigger] before.evaluated(now).tasks_per_intervals[i]).wf() by {
                assert(before.tasks_per_intervals[i].wf());
            }
        }
        let mut renotify = false;
        match self.max_parallelism {
            Some(max) => {
                if self.state.current_parallelism >= max {
                    return Evaluation {
                        outcome: CanRun::False(YieldStrategie::Notify),
                        renotify: false,
                    };
                }
                if self.state.current_parallelism + 1 < max {
                    renotify = true;
                }
            },
            None => {},
        }
        let mut can_run = true;
        let mut wait: u128 = 0;
        let since = elapsed_since(self.state.last_run, now);
        if since < self.delay {
            can_run = false;
            let queued = self.state.delay_queued_task as u128;
            let delay = self.delay as u128;
            assert(queued * delay <= 0xffff_ffff_ffff_ffff * 0xffff_ffff_ffff_ffff)
                by (nonlinear_arith)
                requires
                    queued <= 0xffff_ffff_ffff_ffff,
                    delay <= 0xffff_ffff_ffff_ffff,
            ;
            wait = (self.delay - since) as u128 + queued * delay;
        }
        let n = self.tasks_per_intervals.len();
        let mut i: usize = 0;
        while i < n
            invariant
                i <= n,
                n == self.tasks_per_intervals.len(),
                n == before.tasks_per_intervals.len(),
                before.wf(),
                self.max_parallelism == before.max_parallelism,
                self.delay == before.delay,
                self.state == before.state,
                forall|j: int|
                    0 <= j < i ==> self.tasks_per_intervals[j]
                        == before.tasks_per_intervals[j].evaluated(now),
                forall|j: int|
                    i <= j < n ==> self.tasks_per_intervals[j] == before.tasks_per_intervals[j],
                can_run == (before.delay_met(now) && forall|j: int|
                    0 <= j < i ==> (#[trigger] before.tasks_per_intervals[j]).satisfied(now)),
                wait == if before.delay_wait(now) > longest_window_wait(
                    before.tasks_per_intervals.take(i as int),
                    now,
                ) {
                    before.delay_wait(now)
                } else {
                    longest_window_wait(before.tasks_per_intervals.take(i as int), now)
                },
            decreases n - i,
        {
            let asked = self.tasks_per_intervals[i].evaluate(now);
            match asked {
                Some(ticks) => {
                    can_run = false;
                    if ticks > wait {
                        wait = ticks;
                    }
                },
                None => {},
            }
            proof {
                assert(before.tasks_per_intervals.take(i + 1).drop_last()
                    =~= before.tasks_per_intervals.take(i as int));
            }
            i = i + 1;
        }
        proof {
            assert(before.tasks_per_intervals.take(n as int) =~= before.tasks_per_intervals);
            assert(self@.tasks_per_intervals =~= before.evaluated(now).tasks_per_intervals);
        }
        if can_run {
            Evaluation { outcome: CanRun::True, renotify }
        } else {
            Evaluation { outcome: CanRun::False(YieldStrategie::Duration(wait)), renotify }
        }
    }

    /// Commits one admission at `now`, for a caller that holds the limiter
    /// exclusively and has just seen it answer `True`.
    pub fn commit(&mut self, now: u64)
        requires
            old(self)@.counters_have_room(),
        ensures
            final(self)@ == old(self)@.committed(now),
            old(self)@.inv() && old(self)@.ready(now) ==> final(self)@.inv(),
    {
        let ghost before = self@;
        proof {
            if before.inv() && before.ready(now) {
                lemma_commit_keeps_invariant(before, now);
            }
        }
        self.state.current_parallelism = self.state.current_parallelism + 1;
        self.state.last_run = now;
        self.state.delay_queued_task = self.state.delay_queued_task + 1;
        let n = self.tasks_per_intervals.len();
        let mut i: usize = 0;
        while i < n
            invariant
                i <= n,
                n == self.tasks_per_intervals.len(),
                n == before.tasks_per_intervals.len(),
                before.counters_have_room(),
                self.max_parallelism == before.max_parallelism,
                self.delay == before.delay,
                self.state == before.committed(now).state,
                forall|j: int|
                    0 <= j < i ==> self.tasks_per_intervals[j]
                        == before.tasks_per_intervals[j].admitted(now),
                forall|j: int|
                    i <= j < n ==> self.tasks_per_intervals[j] == before.tasks_per_intervals[j],
            decreases n - i,
        {
            self.tasks_per_intervals[i].record_admission(now);
            i = i + 1;
        }
        proof {
            assert(self@.tasks_per_intervals =~= before.committed(now).tasks_per_intervals);
        }
    }

    /// Releases one work unit. The caller then signals the limiter's release
    /// notification once.
    pub fn release(&mut self)
        requires
            old(self).state.current_parallelism > 0,
        ensures
            final(self)@ == old(self)@.released(),
            old(self)@.inv() ==> final(self)@.inv(),
    {
        proof {
            if self@.inv() {
                lemma_release_keeps_invariant(self@);
            }
        }
        self.state.current_parallelism = self.state.current_parallelism - 1;
        self.state.delay_queued_task = 0;
    }
}

} // verus!
