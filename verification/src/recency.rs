//! Ordering by time, most recent first. Entries of equal time keep the order
//! in which they came.

use crate::order::{
    indices_of, is_place, lemma_insert_at_place, lemma_stable_order, lists_indices, ordered,
    stable_order, strict_weak,
};
use crate::state::{later, not_earlier, Timestamp};
use vstd::prelude::*;

verus! {

/// The order of times: the later one precedes.
pub open spec fn by_time() -> spec_fn(Timestamp, Timestamp) -> bool {
    |a: Timestamp, b: Timestamp| later(a, b)
}

/// The indices of `keys` ordered by time, most recent first; indices of
/// equal time in rising order.
pub open spec fn recency_order(keys: Seq<Timestamp>) -> Seq<int> {
    stable_order(keys, by_time())
}

/// Along `order` the times never rise, and indices of equal time rise.
pub open spec fn descends(order: Seq<int>, keys: Seq<Timestamp>) -> bool {
    forall|k: int, l: int|
        0 <= k < l < order.len() ==> {
            &&& not_earlier(keys[#[trigger] order[k]], keys[#[trigger] order[l]])
            &&& keys[order[k]] == keys[order[l]] ==> order[k] < order[l]
        }
}

/// The recency order lists every index of `keys` once, times never rise
/// along it, and indices of equal time keep their order.
pub proof fn lemma_recency_order(keys: Seq<Timestamp>)
    ensures
        recency_order(keys).len() == keys.len(),
        lists_indices(recency_order(keys), keys.len() as int),
        descends(recency_order(keys), keys),
{
    assert(strict_weak(by_time()));
    lemma_stable_order(keys, by_time());
    let order = recency_order(keys);
    assert forall|k: int, l: int| 0 <= k < l < order.len() implies {
        &&& not_earlier(keys[#[trigger] order[k]], keys[#[trigger] order[l]])
        &&& keys[order[k]] == keys[order[l]] ==> order[k] < order[l]
    } by {
        assert(!by_time()(keys[order[l]], keys[order[k]]));
    }
}

/// Orders the indices of `keys` by time, most recent first; indices of equal
/// time keep their order.
pub fn recency_order_of(keys: &Vec<Timestamp>) -> (order: Vec<usize>)
    ensures
        indices_of(order@) == recency_order(keys@),
        order.len() == keys.len(),
        forall|k: int| 0 <= k < order.len() ==> #[trigger] order[k] < keys.len(),
{
    let mut order: Vec<usize> = Vec::new();
    proof {
        assert(indices_of(order@) =~= recency_order(keys@.take(0)));
    }
    let mut i: usize = 0;
    while i < keys.len()
        invariant
            i <= keys.len(),
            order.len() == i,
            indices_of(order@) == recency_order(keys@.take(i as int)),
            forall|k: int| 0 <= k < order.len() ==> #[trigger] order[k] < i,
        decreases keys.len() - i,
    {
        let ghost upto = keys@.take(i + 1);
        let ghost before = indices_of(order@);
        let mut pos: usize = order.len();
        while pos > 0 && keys[i].is_later_than(&keys[order[pos - 1]])
            invariant
                pos <= order.len(),
                i < keys.len(),
                order.len() == i,
                upto == keys@.take(i + 1),
                before == indices_of(order@),
                forall|k: int| 0 <= k < order.len() ==> #[trigger] order[k] < i,
                forall|k: int|
                    pos <= k < before.len() ==> later(upto[i as int], upto[#[trigger] before[k]]),
            decreases pos,
        {
            proof {
                assert(before[pos - 1] == order[pos - 1]);
            }
            pos = pos - 1;
        }
        proof {
            if pos > 0 {
                assert(before[pos - 1] == order[pos - 1]);
            }
            assert(is_place(before, upto, i as int, pos as int, by_time()));
            lemma_insert_at_place(before, upto, i as int, pos as int, by_time());
            assert(upto.drop_last() =~= keys@.take(i as int));
        }
        order.insert(pos, i);
        proof {
            assert(indices_of(order@) =~= before.insert(pos as int, i as int));
        }
        i = i + 1;
    }
    proof {
        assert(keys@.take(i as int) =~= keys@);
    }
    order
}

} // verus!
