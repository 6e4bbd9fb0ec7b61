//! The admission of one work unit under several limiters.
//!
//! The caller owns the locks, the clock and the timers; [`Admission`] makes the
//! decisions. It names the limiter to lock and evaluate next, takes the answer,
//! and says what follows: the next limiter, the commit on all of them, or a
//! wait with nothing held, after which the attempt starts over.
use crate::limiter::{CanRun, YieldStrategie};
use crate::order::{is_lock_order, lock_order};
use vstd::prelude::*;

verus! {

/// Where a work unit stands.
#[derive(Clone, Copy, Debug, PartialEq, Eq, Structural)]
pub enum Phase {
    /// It asks its limiters for admission.
    Evaluating,
    /// Every limiter has admitted it; it runs, or is about to.
    Admitted,
    /// It has given back what it held on every limiter.
    Released,
}

/// What the caller has to do next.
#[derive(Clone, Copy, Debug, PartialEq, Eq, Structural)]
pub enum Step {
    /// Lock the limiter at this position of the caller's list, evaluate it, and
    /// report the answer. The limiters locked before stay locked.
    Evaluate(usize),
    /// Every limiter is locked and has answered `True`: commit the admission on
    /// each of them, unlock them, and run the work.
    Commit,
    /// The limiter at this position has turned the work unit away: unlock
    /// everything, wait as that limiter asks, and start over.
    Backoff(usize, YieldStrategie),
}

/// An admission as a mathematical value.
pub struct AdmissionView {
    /// The positions of the caller's limiters in locking order.
    pub order: Seq<usize>,
    /// How many limiters of `order` are locked and have answered `True` in the
    /// attempt that is under way.
    pub held: nat,
    pub phase: Phase,
}

impl AdmissionView {
    /// The admission at the start of an attempt: nothing is held.
    pub open spec fn restarted(self) -> AdmissionView {
        AdmissionView { held: 0, ..self }
    }

    /// What the start of an attempt asks for: the first limiter in locking
    /// order, or the commit at once where there is no limiter at all.
    pub open spec fn first_step(self) -> Step {
        if self.order.len() == 0 {
            Step::Commit
        } else {
            Step::Evaluate(self.order[0])
        }
    }

    /// The admission after an attempt was started.
    pub open spec fn started(self) -> AdmissionView {
        if self.order.len() == 0 {
            AdmissionView { held: 0, phase: Phase::Admitted, ..self }
        } else {
            self.restarted()
        }
    }

    /// What follows the answer `outcome` of the limiter that was evaluated
    /// last, which is `order[held]`.
    pub open spec fn next_step(self, outcome: CanRun) -> Step {
        match outcome {
            CanRun::True => if self.held + 1 == self.order.len() {
                Step::Commit
            } else {
                Step::Evaluate(self.order[self.held as int + 1])
            },
            CanRun::False(strategie) => Step::Backoff(self.order[self.held as int], strategie),
        }
    }

    /// The admission after the answer `outcome` of the limiter that was
    /// evaluated last.
    pub open spec fn answered(self, outcome: CanRun) -> AdmissionView {
        match outcome {
            CanRun::True => if self.held + 1 == self.order.len() {
                AdmissionView { held: self.held + 1, phase: Phase::Admitted, ..self }
            } else {
                AdmissionView { held: self.held + 1, ..self }
            },
            CanRun::False(_) => self.restarted(),
        }
    }
}

/// The admission of one work unit under the limiters that it names.
#[derive(Debug)]
pub struct Admission {
    order: Vec<usize>,
    held: usize,
    phase: Phase,
}

impl View for Admission {
    type V = AdmissionView;

    closed spec fn view(&self) -> AdmissionView {
        AdmissionView { order: self.order@, held: self.held as nat, phase: self.phase }
    }
}

impl Admission {
    #[verifier::type_invariant]
    spec fn consistent(self) -> bool {
        &&& self.held <= self.order.len()
        &&& self.phase != Phase::Evaluating ==> self.held == self.order.len()
    }

    /// An admission under limiters with the identities `keys`, named by their
    /// positions in `keys`. The locking order is fixed here, once and for all
    /// attempts.
    pub fn new(keys: &Vec<usize>) -> (admission: Self)
        ensures
            is_lock_order(keys@, admission@.order),
            admission@.held == 0,
            admission@.phase == Phase::Evaluating,
    {
        Admission { order: lock_order(keys), held: 0, phase: Phase::Evaluating }
    }

    /// Where the work unit stands.
    pub fn phase(&self) -> (phase: Phase)
        ensures
            phase == self@.phase,
    {
        self.phase
    }

    /// The positions of the caller's limiters in locking order.
    pub fn order(&self) -> (order: &Vec<usize>)
        ensures
            order@ == self@.order,
    {
        &self.order
    }

    /// How many limiters are locked and have answered `True` in the attempt
    /// that is under way.
    pub fn held(&self) -> (held: usize)
        ensures
            held == self@.held,
            held <= self@.order.len(),
    {
        proof {
            use_type_invariant(self);
        }
        self.held
    }

    /// Starts an attempt, the first one or the next one after a wait, with
    /// nothing held.
    pub fn start(&mut self) -> (step: Step)
        requires
            old(self)@.phase == Phase::Evaluating,
        ensures
            final(self)@ == old(self)@.started(),
            step == old(self)@.first_step(),
    {
        self.held = 0;
        if self.order.len() == 0 {
            self.phase = Phase::Admitted;
            Step::Commit
        } else {
            Step::Evaluate(self.order[0])
        }
    }

    /// Takes the answer of the limiter that the latest step named, and says
    /// what follows. `True` keeps that limiter locked and moves on to the next
    /// one, or to the commit after the last one. `False` ends the attempt:
    /// nothing stays locked, and nothing was committed.
    pub fn evaluated(&mut self, outcome: CanRun) -> (step: Step)
        requires
            old(self)@.phase == Phase::Evaluating,
            old(self)@.held < old(self)@.order.len(),
        ensures
            final(self)@ == old(self)@.answered(outcome),
            step == old(self)@.next_step(outcome),
    {
        proof {
            use_type_invariant(&*self);
        }
        match outcome {
            CanRun::True => {
                self.held = self.held + 1;
                if self.held == self.order.len() {
                    self.phase = Phase::Admitted;
                    Step::Commit
                } else {
                    Step::Evaluate(self.order[self.held])
                }
            },
            CanRun::False(strategie) => {
                let turned_away = self.order[self.held];
                self.held = 0;
                Step::Backoff(turned_away, strategie)
            },
        }
    }

    /// Records that the work has ended, by completion or by cancellation. The
    /// caller then releases every limiter of [`Self::order`] once and signals
    /// its release notification.
    pub fn finish(&mut self)
        requires
            old(self)@.phase == Phase::Admitted,
        ensures
            final(self)@ == (AdmissionView { phase: Phase::Released, ..old(self)@ }),
    {
        proof {
            use_type_invariant(&*self);
        }
        self.phase = Phase::Released;
    }
}

/// How many answers at the end of `outcomes` are `True` without a break.
pub open spec fn trailing_trues(outcomes: Seq<CanRun>) -> nat
    decreases outcomes.len(),
{
    if outcomes.len() == 0 {
        0
    } else if outcomes.last() == CanRun::True {
        trailing_trues(outcomes.drop_last()) + 1
    } else {
        0
    }
}

impl AdmissionView {
    /// The admission after the answers `outcomes`, the earliest first.
    pub open spec fn answered_all(self, outcomes: Seq<CanRun>) -> AdmissionView
        decreases outcomes.len(),
    {
        if outcomes.len() == 0 {
            self
        } else {
            self.answered_all(outcomes.drop_last()).answered(outcomes.last())
        }
    }

    /// Every answer of `outcomes` met an admission that was still asking and
    /// had a limiter left to ask.
    pub open spec fn takes_all(self, outcomes: Seq<CanRun>) -> bool
        decreases outcomes.len(),
    {
        outcomes.len() == 0 || {
            let before = self.answered_all(outcomes.drop_last());
            &&& self.takes_all(outcomes.drop_last())
            &&& before.phase == Phase::Evaluating
            &&& before.held < before.order.len()
        }
    }
}

/// All or nothing: through any number of attempts, what an admission holds is
/// the unbroken run of `True` answers at the end of what it was told, in
/// locking order. It is admitted only when that run covers every limiter, and
/// any `False` leaves it holding nothing.
pub proof fn lemma_admitted_only_by_all(admission: AdmissionView, outcomes: Seq<CanRun>)
    requires
        admission.phase == Phase::Evaluating,
        admission.held == 0,
        admission.takes_all(outcomes),
    ensures
        admission.answered_all(outcomes).order == admission.order,
        admission.answered_all(outcomes).held == trailing_trues(outcomes),
        admission.answered_all(outcomes).held <= admission.order.len(),
        admission.answered_all(outcomes).phase != Phase::Released,
        admission.answered_all(outcomes).phase == Phase::Admitted <==> outcomes.len() > 0
            && trailing_trues(outcomes) == admission.order.len(),
    decreases outcomes.len(),
{
    if outcomes.len() > 0 {
        lemma_admitted_only_by_all(admission, outcomes.drop_last());
    }
}

} // verus!
