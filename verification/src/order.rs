//! Stable sorting by an integer key.

use vstd::prelude::*;

verus! {

/// A sorted list with one more item, behind every item whose key is not larger.
pub open spec fn placed<A>(sorted: Seq<A>, item: A, key: spec_fn(A) -> int) -> Seq<A>
    decreases sorted.len(),
{
    if sorted.len() == 0 || key(sorted.last()) <= key(item) {
        sorted.push(item)
    } else {
        placed(sorted.drop_last(), item, key).push(sorted.last())
    }
}

/// The items of a list, smallest key first; items with equal keys keep their
/// order.
pub open spec fn sorted_by<A>(list: Seq<A>, key: spec_fn(A) -> int) -> Seq<A>
    decreases list.len(),
{
    if list.len() == 0 {
        seq![]
    } else {
        placed(sorted_by(list.drop_last(), key), list.last(), key)
    }
}

/// Whether keys never fall from one item to the next.
pub open spec fn ascending<A>(list: Seq<A>, key: spec_fn(A) -> int) -> bool {
    forall|i: int, j: int| 0 <= i <= j < list.len() ==> key(#[trigger] list[i]) <= key(
        #[trigger] list[j],
    )
}

/// Placing an item is inserting it at the end of those with smaller or equal
/// keys.
pub proof fn placed_is_insert<A>(sorted: Seq<A>, item: A, key: spec_fn(A) -> int, p: int)
    requires
        0 <= p <= sorted.len(),
        p > 0 ==> key(sorted[p - 1]) <= key(item),
        forall|i: int| p <= i < sorted.len() ==> key(#[trigger] sorted[i]) > key(item),
    ensures
        placed(sorted, item, key) == sorted.insert(p, item),
    decreases sorted.len(),
{
    if p == sorted.len() {
        assert(sorted.insert(p, item) =~= sorted.push(item));
    } else {
        assert(key(sorted[sorted.len() - 1]) > key(item));
        placed_is_insert(sorted.drop_last(), item, key, p);
        assert(sorted.drop_last().insert(p, item).push(sorted.last()) =~= sorted.insert(p, item));
    }
}

proof fn placed_keeps_order<A>(sorted: Seq<A>, item: A, key: spec_fn(A) -> int)
    requires
        ascending(sorted, key),
    ensures
        ascending(placed(sorted, item, key), key),
        placed(sorted, item, key).len() == sorted.len() + 1,
        placed(sorted, item, key).to_multiset() =~= sorted.to_multiset().insert(item),
        forall|i: int|
            0 <= i < placed(sorted, item, key).len() ==> {
                let x = #[trigger] placed(sorted, item, key)[i];
                x == item || sorted.contains(x)
            },
    decreases sorted.len(),
{
    broadcast use vstd::seq_lib::group_to_multiset_ensures;

    let out = placed(sorted, item, key);
    if sorted.len() == 0 || key(sorted.last()) <= key(item) {
        assert forall|i: int, j: int| 0 <= i <= j < out.len() implies key(#[trigger] out[i]) <= key(
            #[trigger] out[j],
        ) by {
            if i < sorted.len() {
                assert(key(sorted[i]) <= key(sorted[sorted.len() - 1]));
            }
        }
        assert forall|i: int| 0 <= i < out.len() implies {
            let x = #[trigger] out[i];
            x == item || sorted.contains(x)
        } by {
            if i < sorted.len() {
                assert(sorted[i] == out[i]);
            }
        }
    } else {
        let head = sorted.drop_last();
        placed_keeps_order(head, item, key);
        let inner = placed(head, item, key);
        assert(sorted =~= head.push(sorted.last()));
        assert forall|i: int, j: int| 0 <= i <= j < out.len() implies key(#[trigger] out[i]) <= key(
            #[trigger] out[j],
        ) by {
            if j < inner.len() {
                assert(out[i] == inner[i] && out[j] == inner[j]);
            } else if i < inner.len() {
                let x = inner[i];
                assert(out[i] == x);
                if x != item {
                    let k = choose|k: int| 0 <= k < head.len() && head[k] == x;
                    assert(sorted[k] == x);
                    assert(key(sorted[k]) <= key(sorted[sorted.len() - 1]));
                }
            }
        }
        assert forall|i: int| 0 <= i < out.len() implies {
            let x = #[trigger] out[i];
            x == item || sorted.contains(x)
        } by {
            if i < inner.len() {
                assert(out[i] == inner[i]);
                let x = inner[i];
                if x != item {
                    let k = choose|k: int| 0 <= k < head.len() && head[k] == x;
                    assert(sorted[k] == x);
                }
            } else {
                assert(sorted[sorted.len() - 1] == out[i]);
            }
        }
        assert(out.to_multiset() =~= inner.to_multiset().insert(sorted.last()));
    }
}

/// Sorting puts smaller keys first and neither loses nor adds an item.
pub proof fn sorted_by_sorts<A>(list: Seq<A>, key: spec_fn(A) -> int)
    ensures
        ascending(sorted_by(list, key), key),
        sorted_by(list, key).len() == list.len(),
        sorted_by(list, key).to_multiset() =~= list.to_multiset(),
    decreases list.len(),
{
    broadcast use vstd::seq_lib::group_to_multiset_ensures;

    if list.len() > 0 {
        sorted_by_sorts(list.drop_last(), key);
        placed_keeps_order(sorted_by(list.drop_last(), key), list.last(), key);
        assert(list =~= list.drop_last().push(list.last()));
    } else {
        assert(list =~= Seq::<A>::empty());
    }
}

/// The items with one key, in order.
pub open spec fn with_key<A>(list: Seq<A>, key: spec_fn(A) -> int, k: int) -> Seq<A> {
    list.filter(|x: A| key(x) == k)
}

proof fn placed_is_stable<A>(sorted: Seq<A>, item: A, key: spec_fn(A) -> int, k: int)
    requires
        ascending(sorted, key),
    ensures
        with_key(placed(sorted, item, key), key, k) == if key(item) == k {
            with_key(sorted, key, k).push(item)
        } else {
            with_key(sorted, key, k)
        },
    decreases sorted.len(),
{
    reveal(Seq::filter);
    let out = placed(sorted, item, key);
    if sorted.len() == 0 || key(sorted.last()) <= key(item) {
        assert(out.drop_last() =~= sorted);
    } else {
        let head = sorted.drop_last();
        assert(ascending(head, key)) by {
            assert forall|i: int, j: int| 0 <= i <= j < head.len() implies key(#[trigger] head[i])
                <= key(#[trigger] head[j]) by {
                assert(head[i] == sorted[i] && head[j] == sorted[j]);
            }
        }
        placed_is_stable(head, item, key, k);
        assert(out.drop_last() =~= placed(head, item, key));
        if key(sorted.last()) == k {
            // Everything before has smaller or equal keys, and the item's is smaller.
            assert(key(item) != k);
        }
    }
}

/// Sorting is stable: items with equal keys keep their order.
pub proof fn sorted_by_is_stable<A>(list: Seq<A>, key: spec_fn(A) -> int, k: int)
    ensures
        with_key(sorted_by(list, key), key, k) == with_key(list, key, k),
    decreases list.len(),
{
    reveal(Seq::filter);
    if list.len() > 0 {
        sorted_by_is_stable(list.drop_last(), key, k);
        sorted_by_sorts(list.drop_last(), key);
        placed_is_stable(sorted_by(list.drop_last(), key), list.last(), key, k);
    } else {
        assert(list =~= Seq::<A>::empty());
    }
}

/// Filtering keeps exactly the items that are wanted.
pub proof fn filtered_members<A>(list: Seq<A>, keep: spec_fn(A) -> bool)
    ensures
        forall|x: A| #[trigger] list.filter(keep).contains(x) <==> list.contains(x) && keep(x),
    decreases list.len(),
{
    reveal(Seq::filter);
    if list.len() > 0 {
        let head = list.drop_last();
        let last = list.last();
        filtered_members(head, keep);
        let kept = head.filter(keep);
        let all = list.filter(keep);
        assert(list[list.len() - 1] == last);
        assert forall|x: A| #[trigger] all.contains(x) <==> list.contains(x) && keep(x) by {
            if all.contains(x) {
                let k = choose|k: int| 0 <= k < all.len() && all[k] == x;
                if k < kept.len() {
                    assert(kept[k] == x);
                    assert(kept.contains(x));
                    let h = choose|h: int| 0 <= h < head.len() && head[h] == x;
                    assert(list[h] == x);
                }
            }
            if list.contains(x) && keep(x) {
                let h = choose|h: int| 0 <= h < list.len() && list[h] == x;
                if h < head.len() {
                    assert(head[h] == x);
                    assert(kept.contains(x));
                    let k = choose|k: int| 0 <= k < kept.len() && kept[k] == x;
                    assert(all[k] == x);
                } else {
                    assert(all[all.len() - 1] == x);
                }
            }
        }
    }
}

/// Filtering two lists in a row is filtering both together.
pub proof fn filter_joins<A>(a: Seq<A>, b: Seq<A>, keep: spec_fn(A) -> bool)
    ensures
        (a + b).filter(keep) == a.filter(keep) + b.filter(keep),
    decreases b.len(),
{
    reveal(Seq::filter);
    if b.len() == 0 {
        assert(a + b =~= a);
        assert(a.filter(keep) + b.filter(keep) =~= a.filter(keep));
    } else {
        filter_joins(a, b.drop_last(), keep);
        assert((a + b).drop_last() =~= a + b.drop_last());
        assert((a + b).last() == b.last());
        assert((a + b).filter(keep) =~= a.filter(keep) + b.filter(keep));
    }
}

} // verus!
