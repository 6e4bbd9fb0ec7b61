//! Work units that wait for locks never wait in a circle.
use crate::admission::{AdmissionView, Phase};
use crate::order::{is_lock_order, locks_before};
use vstd::prelude::*;

verus! {

/// A work unit in the middle of an attempt: it holds the locks of the first
/// `admission.held` limiters of its locking order and waits for the lock of
/// the next one.
pub struct Waiter {
    /// The identities of the limiters that the work unit has named.
    pub keys: Seq<usize>,
    pub admission: AdmissionView,
}

impl Waiter {
    /// The work unit has named every limiter once, locks in locking order, and
    /// has a limiter left to lock.
    pub open spec fn wf(self) -> bool {
        &&& is_lock_order(self.keys, self.admission.order)
        &&& forall|i: int, j: int|
            0 <= i < j < self.keys.len() ==> self.keys[i] != self.keys[j]
        &&& self.admission.phase == Phase::Evaluating
        &&& self.admission.held < self.admission.order.len()
    }

    /// The identity of the limiter at place `p` of the locking order.
    pub open spec fn key_at(self, p: int) -> usize {
        self.keys[self.admission.order[p] as int]
    }

    /// The work unit holds the lock of the limiter with the identity `key`.
    pub open spec fn holds(self, key: usize) -> bool {
        exists|p: int| 0 <= p < self.admission.held && self.key_at(p) == key
    }

    /// The identity of the limiter whose lock the work unit waits for.
    pub open spec fn wants(self) -> usize {
        self.key_at(self.admission.held as int)
    }
}

/// A work unit waits only for limiters that come after all that it holds.
pub proof fn lemma_wanted_lock_comes_last(waiter: Waiter, key: usize)
    requires
        waiter.wf(),
        waiter.holds(key),
    ensures
        key < waiter.wants(),
{
    let p = choose|p: int| 0 <= p < waiter.admission.held && waiter.key_at(p) == key;
    let order = waiter.admission.order;
    let held = waiter.admission.held as int;
    assert(locks_before(waiter.keys, order[p], order[held]));
    if waiter.keys[order[p] as int] == waiter.keys[order[held] as int] {
        assert(order[p] < order[held]);
    }
}

/// Among work units that wait, one waits for the largest identity.
proof fn lemma_largest_wanted(waiters: Seq<Waiter>) -> (at: int)
    requires
        waiters.len() > 0,
    ensures
        0 <= at < waiters.len(),
        forall|j: int| 0 <= j < waiters.len() ==> (#[trigger] waiters[j]).wants() <= waiters[at].wants(),
    decreases waiters.len(),
{
    if waiters.len() == 1 {
        0
    } else {
        let before = waiters.drop_last();
        let best = lemma_largest_wanted(before);
        assert(before[best] == waiters[best]);
        let found = if waiters.last().wants() > waiters[best].wants() {
            waiters.len() - 1
        } else {
            best
        };
        assert forall|j: int| 0 <= j < waiters.len() implies (#[trigger] waiters[j]).wants()
            <= waiters[found].wants() by {
            if j < before.len() {
                assert(before[j] == waiters[j]);
            }
        }
        found
    }
}

/// Nobody among `waiters` holds the lock that the work unit at `at` waits for.
pub open spec fn goes_on(waiters: Seq<Waiter>, at: int) -> bool {
    forall|j: int|
        0 <= j < waiters.len() ==> !(#[trigger] waiters[j]).holds(waiters[at].wants())
}

/// No deadlock: whatever limiters the work units share, and in whatever order
/// each of them has named its own, whenever some of them wait for a lock there
/// is one among them whose lock nobody of them holds. It goes on, and when it
/// has let go of its locks the same holds of the others.
pub proof fn lemma_some_waiter_goes_on(waiters: Seq<Waiter>)
    requires
        waiters.len() > 0,
        forall|i: int| 0 <= i < waiters.len() ==> (#[trigger] waiters[i]).wf(),
    ensures
        exists|at: int| 0 <= at < waiters.len() && #[trigger] goes_on(waiters, at),
{
    let at = lemma_largest_wanted(waiters);
    assert forall|j: int| 0 <= j < waiters.len() implies !(#[trigger] waiters[j]).holds(
        waiters[at].wants(),
    ) by {
        if waiters[j].holds(waiters[at].wants()) {
            lemma_wanted_lock_comes_last(waiters[j], waiters[at].wants());
        }
    }
    assert(goes_on(waiters, at));
}

} // verus!
