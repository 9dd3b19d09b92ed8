//! Stable ordering: the indices of a list of keys, arranged by a strict
//! order on the keys so that keys which neither precede the other keep the
//! order in which they came.

use vstd::prelude::*;
use vstd::set_lib::{lemma_int_range, lemma_subset_equality, set_int_range};

verus! {

/// `precedes` is a strict weak order: no two keys precede each other, and a
/// key that precedes neither of two keys does not come between them.
pub open spec fn strict_weak<K>(precedes: spec_fn(K, K) -> bool) -> bool {
    &&& forall|a: K, b: K| !(#[trigger] precedes(a, b) && precedes(b, a))
    &&& forall|a: K, b: K, c: K|
        !(#[trigger] precedes(a, b)) && !(#[trigger] precedes(b, c)) ==> !precedes(a, c)
}

/// `order` with the index `i` in its place: behind every index whose key
/// the key of `i` does not precede.
pub open spec fn insert_index<K>(
    order: Seq<int>,
    keys: Seq<K>,
    i: int,
    precedes: spec_fn(K, K) -> bool,
) -> Seq<int>
    decreases order.len(),
{
    if order.len() == 0 {
        seq![i]
    } else if precedes(keys[i], keys[order.last()]) {
        insert_index(order.drop_last(), keys, i, precedes).push(order.last())
    } else {
        order.push(i)
    }
}

/// The indices of `keys` in stable order.
pub open spec fn stable_order<K>(keys: Seq<K>, precedes: spec_fn(K, K) -> bool) -> Seq<int>
    decreases keys.len(),
{
    if keys.len() == 0 {
        Seq::empty()
    } else {
        insert_index(stable_order(keys.drop_last(), precedes), keys, keys.len() - 1, precedes)
    }
}

/// `order` lists indices below `n`, none of them twice.
pub open spec fn lists_indices(order: Seq<int>, n: int) -> bool {
    &&& forall|k: int| 0 <= k < order.len() ==> 0 <= #[trigger] order[k] < n
    &&& forall|k: int, l: int| 0 <= k < l < order.len() ==> order[k] != order[l]
}

/// Along `order` no later key precedes an earlier one, and of two keys that
/// do not precede each other the one that came first stands first.
pub open spec fn ordered<K>(order: Seq<int>, keys: Seq<K>, precedes: spec_fn(K, K) -> bool) -> bool {
    forall|k: int, l: int|
        0 <= k < l < order.len() ==> {
            &&& !precedes(keys[#[trigger] order[l]], keys[#[trigger] order[k]])
            &&& !precedes(keys[order[k]], keys[order[l]]) ==> order[k] < order[l]
        }
}

/// Where the index `i` goes in `order`: the key of `i` precedes every entry
/// from `pos` on, and does not precede the entry before `pos`.
pub open spec fn is_place<K>(
    order: Seq<int>,
    keys: Seq<K>,
    i: int,
    pos: int,
    precedes: spec_fn(K, K) -> bool,
) -> bool {
    &&& 0 <= pos <= order.len()
    &&& forall|k: int| pos <= k < order.len() ==> precedes(keys[i], keys[#[trigger] order[k]])
    &&& pos > 0 ==> !precedes(keys[i], keys[order[pos - 1]])
}

/// Inserting at the place gives what `insert_index` describes.
pub proof fn lemma_insert_at_place<K>(
    order: Seq<int>,
    keys: Seq<K>,
    i: int,
    pos: int,
    precedes: spec_fn(K, K) -> bool,
)
    requires
        is_place(order, keys, i, pos, precedes),
    ensures
        insert_index(order, keys, i, precedes) == order.insert(pos, i),
    decreases order.len(),
{
    if order.len() == 0 {
        assert(order.insert(pos, i) =~= seq![i]);
    } else if pos == order.len() {
        assert(order.insert(pos, i) =~= order.push(i));
    } else {
        assert(precedes(keys[i], keys[order[order.len() - 1]]));
        let init = order.drop_last();
        assert forall|k: int| pos <= k < init.len() implies precedes(
            keys[i],
            keys[#[trigger] init[k]],
        ) by {
            assert(init[k] == order[k]);
        }
        lemma_insert_at_place(init, keys, i, pos, precedes);
        assert(init.insert(pos, i).push(order.last()) =~= order.insert(pos, i));
    }
}

/// What `insert_index` holds: the new index and the old entries.
pub proof fn lemma_insert_members<K>(
    order: Seq<int>,
    keys: Seq<K>,
    i: int,
    precedes: spec_fn(K, K) -> bool,
)
    ensures
        insert_index(order, keys, i, precedes).len() == order.len() + 1,
        forall|k: int|
            0 <= k < insert_index(order, keys, i, precedes).len() ==> (#[trigger] insert_index(
                order,
                keys,
                i,
                precedes,
            )[k]) == i || exists|m: int|
                0 <= m < order.len() && order[m] == insert_index(order, keys, i, precedes)[k],
    decreases order.len(),
{
    if order.len() > 0 {
        if precedes(keys[i], keys[order.last()]) {
            let init = order.drop_last();
            lemma_insert_members(init, keys, i, precedes);
            let placed = insert_index(init, keys, i, precedes);
            let out = placed.push(order.last());
            assert forall|k: int| 0 <= k < out.len() implies (#[trigger] out[k]) == i || exists|
                m: int,
            |
                0 <= m < order.len() && order[m] == out[k] by {
                if k < placed.len() {
                    if placed[k] != i {
                        let m = choose|m: int| 0 <= m < init.len() && init[m] == placed[k];
                        assert(order[m] == out[k]);
                    }
                } else {
                    assert(order[order.len() - 1] == out[k]);
                }
            }
        } else {
            let out = order.push(i);
            assert forall|k: int| 0 <= k < out.len() implies (#[trigger] out[k]) == i || exists|
                m: int,
            |
                0 <= m < order.len() && order[m] == out[k] by {
                if k < order.len() {
                    assert(order[k] == out[k]);
                }
            }
        }
    }
}

/// Inserting a new, larger index keeps the order an ordered list of
/// distinct indices.
pub proof fn lemma_insert_index<K>(
    order: Seq<int>,
    keys: Seq<K>,
    i: int,
    precedes: spec_fn(K, K) -> bool,
)
    requires
        strict_weak(precedes),
        lists_indices(order, i),
        ordered(order, keys, precedes),
        0 <= i < keys.len(),
    ensures
        lists_indices(insert_index(order, keys, i, precedes), i + 1),
        ordered(insert_index(order, keys, i, precedes), keys, precedes),
    decreases order.len(),
{
    if order.len() > 0 {
        let last = order[order.len() - 1];
        if precedes(keys[i], keys[order.last()]) {
            let init = order.drop_last();
            assert(forall|k: int| 0 <= k < init.len() ==> init[k] == order[k]);
            lemma_insert_index(init, keys, i, precedes);
            lemma_insert_members(init, keys, i, precedes);
            let placed = insert_index(init, keys, i, precedes);
            let out = placed.push(order.last());
            assert forall|k: int, l: int| 0 <= k < l < out.len() implies {
                &&& out[k] != out[l]
                &&& !precedes(keys[#[trigger] out[l]], keys[#[trigger] out[k]])
                &&& !precedes(keys[out[k]], keys[out[l]]) ==> out[k] < out[l]
            } by {
                if l == out.len() - 1 {
                    assert(out[l] == last);
                    if placed[k] != i {
                        let m = choose|m: int| 0 <= m < init.len() && init[m] == placed[k];
                        assert(order[m] == placed[k]);
                    } else {
                        assert(!(precedes(keys[i], keys[last]) && precedes(keys[last], keys[i])));
                    }
                }
            }
        } else {
            let out = order.push(i);
            assert forall|k: int, l: int| 0 <= k < l < out.len() implies {
                &&& out[k] != out[l]
                &&& !precedes(keys[#[trigger] out[l]], keys[#[trigger] out[k]])
                &&& !precedes(keys[out[k]], keys[out[l]]) ==> out[k] < out[l]
            } by {
                if l == out.len() - 1 {
                    assert(out[l] == i);
                    assert(out[k] == order[k]);
                    if k < order.len() - 1 {
                        assert(!precedes(keys[last], keys[order[k]]));
                    }
                    assert(!precedes(keys[i], keys[last]));
                    assert(!precedes(keys[i], keys[order[k]]));
                } else {
                    assert(out[k] == order[k]);
                    assert(out[l] == order[l]);
                }
            }
        }
    }
}

/// The stable order lists every index of `keys` once, is ordered, and keeps
/// keys that do not precede each other in the order in which they came.
pub proof fn lemma_stable_order<K>(keys: Seq<K>, precedes: spec_fn(K, K) -> bool)
    requires
        strict_weak(precedes),
    ensures
        stable_order(keys, precedes).len() == keys.len(),
        lists_indices(stable_order(keys, precedes), keys.len() as int),
        ordered(stable_order(keys, precedes), keys, precedes),
    decreases keys.len(),
{
    if keys.len() > 0 {
        let init = keys.drop_last();
        lemma_stable_order(init, precedes);
        let order = stable_order(init, precedes);
        assert forall|k: int, l: int| 0 <= k < l < order.len() implies {
            &&& !precedes(keys[#[trigger] order[l]], keys[#[trigger] order[k]])
            &&& !precedes(keys[order[k]], keys[order[l]]) ==> order[k] < order[l]
        } by {
            assert(init[order[k]] == keys[order[k]]);
            assert(init[order[l]] == keys[order[l]]);
        }
        lemma_insert_index(order, keys, keys.len() - 1, precedes);
        lemma_insert_members(order, keys, keys.len() - 1, precedes);
    }
}

/// A list of `n` distinct indices below `n` holds every index below `n`.
pub proof fn lemma_order_is_onto(order: Seq<int>, n: int, i: int)
    requires
        order.len() == n,
        lists_indices(order, n),
        0 <= i < n,
    ensures
        exists|k: int| 0 <= k < order.len() && order[k] == i,
{
    let held = order.to_set();
    let all = set_int_range(0, n);
    assert(order.no_duplicates());
    order.unique_seq_to_set();
    lemma_int_range(0, n);
    assert(held.subset_of(all)) by {
        assert forall|x: int| held.contains(x) implies all.contains(x) by {
            let k = choose|k: int| 0 <= k < order.len() && order[k] == x;
            assert(0 <= order[k] < n);
        }
    }
    vstd::set_lib::lemma_len_subset(held, all);
    lemma_subset_equality(held, all);
    assert(all.contains(i));
    assert(held.contains(i));
}

/// The indices that a vector holds, as mathematical integers.
pub open spec fn indices_of(v: Seq<usize>) -> Seq<int> {
    Seq::new(v.len(), |k: int| v[k] as int)
}

} // verus!
