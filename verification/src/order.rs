//! Stable orderings of indices.

use vstd::prelude::*;

verus! {

/// `a` comes before `b` when its key is larger, or equal with a smaller
/// index: the order of a stable sort by decreasing key.
pub open spec fn before_desc(keys: Seq<u64>, a: int, b: int) -> bool {
    keys[a] > keys[b] || (keys[a] == keys[b] && a < b)
}

/// `order` lists every index of `keys` once, by decreasing key, equal keys
/// in increasing index.
pub open spec fn sorted_desc(keys: Seq<u64>, order: Seq<usize>) -> bool {
    &&& order.len() == keys.len()
    &&& forall|i: int| 0 <= i < order.len() ==> #[trigger] order[i] < keys.len()
    &&& forall|x: usize| x < keys.len() ==> #[trigger] order.contains(x)
    &&& forall|i: int, j: int| 0 <= i < j < order.len() ==> before_desc(keys, #[trigger] order[i] as int, #[trigger] order[j] as int)
}

/// The indices of `keys` in the order of a stable sort by decreasing key.
pub fn order_by_desc(keys: &[u64]) -> (order: Vec<usize>)
    ensures
        sorted_desc(keys@, order@),
{
    let mut order: Vec<usize> = Vec::new();
    let mut t: usize = 0;
    while t < keys.len()
        invariant
            t <= keys@.len(),
            order@.len() == t,
            forall|i: int| 0 <= i < order@.len() ==> #[trigger] order@[i] < t,
            forall|x: usize| x < t ==> #[trigger] order@.contains(x),
            forall|i: int, j: int| 0 <= i < j < order@.len() ==> before_desc(keys@, #[trigger] order@[i] as int, #[trigger] order@[j] as int),
        decreases keys@.len() - t,
    {
        let mut p: usize = 0;
        while p < order.len() && keys[order[p]] >= keys[t]
            invariant
                p <= order@.len(),
                order@.len() == t,
                t < keys@.len(),
                forall|i: int| 0 <= i < order@.len() ==> #[trigger] order@[i] < t,
                forall|q: int| 0 <= q < p ==> keys@[#[trigger] order@[q] as int] >= keys@[t as int],
            decreases order@.len() - p,
        {
            p = p + 1;
        }
        let ghost old_order = order@;
        order.insert(p, t);
        assert(order@ =~= old_order.insert(p as int, t));
        assert forall|i: int, j: int| 0 <= i < j < order@.len() implies before_desc(keys@, #[trigger] order@[i] as int, #[trigger] order@[j] as int) by {
            if j < p {
                assert(order@[i] == old_order[i] && order@[j] == old_order[j]);
            } else if j == p {
                assert(order@[i] == old_order[i]);
            } else if i < p {
                assert(order@[i] == old_order[i] && order@[j] == old_order[j - 1]);
            } else if i == p {
                assert(order@[j] == old_order[j - 1]);
                assert(keys@[old_order[p as int] as int] < keys@[t as int]);
                if j - 1 > p {
                    assert(before_desc(keys@, old_order[p as int] as int, old_order[j - 1] as int));
                }
            } else {
                assert(order@[i] == old_order[i - 1] && order@[j] == old_order[j - 1]);
            }
        }
        assert forall|x: usize| x < t + 1 implies #[trigger] order@.contains(x) by {
            if x == t {
                assert(order@[p as int] == t);
            } else {
                assert(old_order.contains(x));
                let q = choose|q: int| 0 <= q < old_order.len() && old_order[q] == x;
                if q < p {
                    assert(order@[q] == x);
                } else {
                    assert(order@[q + 1] == x);
                }
            }
        }
        t = t + 1;
    }
    order
}


proof fn lemma_sorted_desc_prefix(keys: Seq<u64>, o1: Seq<usize>, o2: Seq<usize>, i: int)
    requires
        sorted_desc(keys, o1),
        sorted_desc(keys, o2),
        0 <= i <= o1.len(),
    ensures
        forall|k: int| 0 <= k < i ==> #[trigger] o1[k] == o2[k],
    decreases i,
{
    if i > 0 {
        let p = i - 1;
        lemma_sorted_desc_prefix(keys, o1, o2, p);
        if o1[p] != o2[p] {
            assert(o2.contains(o1[p]));
            let j = choose|j: int| 0 <= j < o2.len() && o2[j] == o1[p];
            assert(o1.contains(o2[p]));
            let q = choose|q: int| 0 <= q < o1.len() && o1[q] == o2[p];
            if j < p {
                assert(o1[j] == o2[j]);
                assert(before_desc(keys, o1[j] as int, o1[p] as int));
            }
            if q < p {
                assert(o1[q] == o2[q]);
                assert(before_desc(keys, o2[q] as int, o2[p] as int));
            }
            assert(j > p && q > p);
            assert(before_desc(keys, o2[p] as int, o2[j] as int));
            assert(before_desc(keys, o1[p] as int, o1[q] as int));
        }
    }
}

/// A stable order by decreasing key is unique: sorting the same keys twice
/// gives the same order.
pub proof fn lemma_sorted_desc_unique(keys: Seq<u64>, o1: Seq<usize>, o2: Seq<usize>)
    requires
        sorted_desc(keys, o1),
        sorted_desc(keys, o2),
    ensures
        o1 == o2,
{
    lemma_sorted_desc_prefix(keys, o1, o2, o1.len() as int);
    assert(o1 =~= o2);
}

} // verus!
