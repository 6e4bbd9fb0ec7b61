//! The order in which a work unit locks its limiters.
//!
//! Every work unit locks the limiters it names in ascending order of their
//! identities, whatever the order in which it names them. Two work units that
//! share limiters therefore lock the shared ones in the same order, and no
//! cycle of work units that wait for one another can form.
use vstd::prelude::*;

verus! {

/// `first` is locked before `second`: it has the smaller identity, or the same
/// identity and the earlier place in the caller's list.
pub open spec fn locks_before(keys: Seq<usize>, first: usize, second: usize) -> bool {
    keys[first as int] < keys[second as int] || (keys[first as int] == keys[second as int] && first
        < second)
}

/// `order` lists every position of `keys` once, in locking order.
pub open spec fn is_lock_order(keys: Seq<usize>, order: Seq<usize>) -> bool {
    &&& order.len() == keys.len()
    &&& forall|p: int| 0 <= p < order.len() ==> (#[trigger] order[p]) < keys.len()
    &&& forall|k: usize| k < keys.len() ==> #[trigger] order.contains(k)
    &&& forall|p: int, q: int|
        0 <= p < q < order.len() ==> locks_before(keys, #[trigger] order[p], #[trigger] order[q])
}

/// Orders the positions of `keys` for locking: ascending by identity, and
/// limiters of one identity in the order in which the caller named them.
pub fn lock_order(keys: &Vec<usize>) -> (order: Vec<usize>)
    ensures
        is_lock_order(keys@, order@),
{
    let n = keys.len();
    let mut order: Vec<usize> = Vec::new();
    let mut i: usize = 0;
    while i < n
        invariant
            i <= n,
            n == keys.len(),
            order.len() == i,
            forall|p: int| 0 <= p < order.len() ==> (#[trigger] order[p]) < i,
            forall|k: usize| k < i ==> #[trigger] order@.contains(k),
            forall|p: int, q: int|
                0 <= p < q < order.len() ==> locks_before(
                    keys@,
                    #[trigger] order[p],
                    #[trigger] order[q],
                ),
        decreases n - i,
    {
        let key = keys[i];
        let mut at: usize = order.len();
        while at > 0 && keys[order[at - 1]] > key
            invariant
                at <= order.len(),
                order.len() == i,
                i < n,
                n == keys.len(),
                key == keys[i as int],
                forall|p: int| 0 <= p < order.len() ==> (#[trigger] order[p]) < i,
                forall|p: int| at <= p < order.len() ==> keys[(#[trigger] order[p]) as int] > key,
            decreases at,
        {
            at = at - 1;
        }
        let ghost before = order@;
        order.insert(at, i);
        proof {
            assert forall|k: usize| k < i + 1 implies #[trigger] order@.contains(k) by {
                if k == i {
                    assert(order@[at as int] == k);
                } else {
                    assert(before.contains(k));
                    let p = choose|p: int| 0 <= p < before.len() && before[p] == k;
                    if p < at {
                        assert(order@[p] == k);
                    } else {
                        assert(order@[p + 1] == k);
                    }
                }
            }
            assert forall|p: int, q: int| 0 <= p < q < order.len() implies locks_before(
                keys@,
                #[trigger] order[p],
                #[trigger] order[q],
            ) by {
                if q < at {
                    assert(order[p] == before[p] && order[q] == before[q]);
                } else if q == at {
                    assert(order[p] == before[p]);
                    if at > 0 {
                        assert(locks_before(keys@, before[p], before[at - 1]) || p == at - 1);
                    }
                } else if p < at {
                    assert(order[p] == before[p] && order[q] == before[q - 1]);
                } else if p == at {
                    assert(order[q] == before[q - 1]);
                } else {
                    assert(order[p] == before[p - 1] && order[q] == before[q - 1]);
                }
            }
        }
        i = i + 1;
    }
    order
}

/// Two locking orders of one list agree up to `upto`.
proof fn lemma_lock_orders_agree(keys: Seq<usize>, one: Seq<usize>, other: Seq<usize>, upto: int)
    requires
        is_lock_order(keys, one),
        is_lock_order(keys, other),
        0 <= upto <= keys.len(),
    ensures
        forall|p: int| 0 <= p < upto ==> one[p] == other[p],
    decreases upto,
{
    if upto > 0 {
        lemma_lock_orders_agree(keys, one, other, upto - 1);
        let p = upto - 1;
        let a = one[p];
        let b = other[p];
        if a != b {
            assert(other.contains(a));
            let r = choose|r: int| 0 <= r < other.len() && other[r] == a;
            assert(one.contains(b));
            let t = choose|t: int| 0 <= t < one.len() && one[t] == b;
            if r < p {
                assert(locks_before(keys, one[r], one[p]));
            } else if t < p {
                assert(locks_before(keys, other[t], other[p]));
            } else {
                assert(locks_before(keys, other[p], other[r]));
                assert(locks_before(keys, one[p], one[t]));
            }
        }
    }
}

/// A list of limiters has one locking order and no other.
pub proof fn lemma_lock_order_is_unique(keys: Seq<usize>, one: Seq<usize>, other: Seq<usize>)
    requires
        is_lock_order(keys, one),
        is_lock_order(keys, other),
    ensures
        one == other,
{
    lemma_lock_orders_agree(keys, one, other, keys.len() as int);
    assert(one =~= other);
}

/// Two work units lock the limiters that they share in the same order,
/// however each of them has listed its limiters: where `first` names two
/// limiters of different identities at the places `p` and `q` of its locking
/// order, and `second` names the same two at the places `r` and `s` of its
/// own, `p` comes before `q` exactly if `r` comes before `s`. So no work unit
/// ever holds one limiter and waits for another that a second work unit
/// holds while it waits for the first.
pub proof fn lemma_shared_limiters_lock_in_one_order(
    first: Seq<usize>,
    first_order: Seq<usize>,
    second: Seq<usize>,
    second_order: Seq<usize>,
    p: int,
    q: int,
    r: int,
    s: int,
)
    requires
        is_lock_order(first, first_order),
        is_lock_order(second, second_order),
        0 <= p < first_order.len(),
        0 <= q < first_order.len(),
        0 <= r < second_order.len(),
        0 <= s < second_order.len(),
        first[first_order[p] as int] == second[second_order[r] as int],
        first[first_order[q] as int] == second[second_order[s] as int],
        first[first_order[p] as int] != first[first_order[q] as int],
    ensures
        p < q <==> r < s,
        p < q <==> first[first_order[p] as int] < first[first_order[q] as int],
{
    if p < q {
        assert(locks_before(first, first_order[p], first_order[q]));
    } else {
        assert(locks_before(first, first_order[q], first_order[p]));
    }
    if r < s {
        assert(locks_before(second, second_order[r], second_order[s]));
    } else {
        assert(locks_before(second, second_order[s], second_order[r]));
    }
}

} // verus!
