//! GRTS ranks: the order in which the sample points are visited along the
//! space-filling curve, and its inverse.

use vstd::prelude::*;
use vstd::seq_lib::group_to_multiset_ensures;

verus! {

/// `(key, id)` pairs ordered lexicographically, as Rust orders tuples.
pub open spec fn pair_le(a: (u64, usize), b: (u64, usize)) -> bool {
    a.0 < b.0 || (a.0 == b.0 && a.1 <= b.1)
}

/// Index `j` occurs in `order`.
pub open spec fn appears(order: Seq<usize>, j: int) -> bool {
    exists|r: int| 0 <= r < order.len() && order[r] == j
}

spec fn id_appears(pairs: Seq<(u64, usize)>, j: int) -> bool {
    exists|r: int| 0 <= r < pairs.len() && pairs[r].1 == j
}

/// `order` lists the indices `0..keys.len()` sorted by key, equal keys kept in
/// index order (a stable sort): `order[r]` is the point of rank `r`.
pub open spec fn is_stable_order(keys: Seq<u64>, order: Seq<usize>) -> bool {
    &&& order.len() == keys.len()
    &&& forall|r: int| 0 <= r < order.len() ==> #[trigger] order[r] < keys.len()
    &&& forall|j: int| 0 <= j < keys.len() ==> #[trigger] appears(order, j)
    &&& forall|r1: int, r2: int|
        0 <= r1 < r2 < order.len() ==> keys[#[trigger] order[r1] as int] < keys[#[trigger] order[r2] as int] || (
        keys[order[r1] as int] == keys[order[r2] as int] && order[r1] < order[r2])
}

/// `order` lists each of `0..order.len()` exactly once.
pub open spec fn is_permutation(order: Seq<usize>) -> bool {
    &&& forall|r: int| 0 <= r < order.len() ==> #[trigger] order[r] < order.len()
    &&& forall|r1: int, r2: int| 0 <= r1 < r2 < order.len() ==> order[r1] != order[r2]
    &&& forall|j: int| 0 <= j < order.len() ==> #[trigger] appears(order, j)
}

/// A stable GRTS order lists every point exactly once.
pub proof fn lemma_stable_order_is_permutation(keys: Seq<u64>, order: Seq<usize>)
    requires
        is_stable_order(keys, order),
    ensures
        is_permutation(order),
{
    assert forall|r1: int, r2: int| 0 <= r1 < r2 < order.len() implies order[r1] != order[r2] by {
        assert(keys[order[r1] as int] < keys[order[r2] as int] || order[r1] < order[r2]);
    }
}

proof fn lemma_stable_orders_agree_upto(keys: Seq<u64>, o1: Seq<usize>, o2: Seq<usize>, r: int)
    requires
        is_stable_order(keys, o1),
        is_stable_order(keys, o2),
        0 <= r <= o1.len(),
    ensures
        forall|q: int| 0 <= q < r ==> o1[q] == o2[q],
    decreases r,
{
    lemma_stable_order_is_permutation(keys, o1);
    lemma_stable_order_is_permutation(keys, o2);
    if r > 0 {
        let k = r - 1;
        lemma_stable_orders_agree_upto(keys, o1, o2, k);
        let a = o1[k];
        let b = o2[k];
        if a != b {
            assert(appears(o2, a as int));
            let p2 = choose|p: int| 0 <= p < o2.len() && o2[p] == a;
            assert(appears(o1, b as int));
            let p1 = choose|p: int| 0 <= p < o1.len() && o1[p] == b;
            if p2 < k {
                assert(o1[p2] == o2[p2]);
            }
            if p1 < k {
                assert(o1[p1] == o2[p1]);
            }
            assert(o2[k] != o2[p2]);
            assert(o1[k] != o1[p1]);
        }
    }
}

/// The stable GRTS order is determined by the keys alone: two orders that
/// both sort the same keys stably are equal.
pub proof fn lemma_stable_order_unique(keys: Seq<u64>, o1: Seq<usize>, o2: Seq<usize>)
    requires
        is_stable_order(keys, o1),
        is_stable_order(keys, o2),
    ensures
        o1 == o2,
{
    lemma_stable_orders_agree_upto(keys, o1, o2, o1.len() as int);
    assert(o1 =~= o2);
}

/// `ranks` is the inverse of the permutation `order`.
pub open spec fn is_inverse(order: Seq<usize>, ranks: Seq<usize>) -> bool {
    &&& ranks.len() == order.len()
    &&& forall|j: int| 0 <= j < ranks.len() ==> #[trigger] ranks[j] < ranks.len()
    &&& forall|r: int| 0 <= r < order.len() ==> #[trigger] ranks[order[r] as int] == r
    &&& forall|j: int| 0 <= j < ranks.len() ==> #[trigger] order[ranks[j] as int] == j
}

/// Sorts the pairs in ascending (lexicographic) order with the standard
/// library's stable sort `<[T]>::sort`. What is trusted: the result is a
/// rearrangement of the input, in ascending order.
#[verifier::external_body]
fn sort_pairs(v: &mut Vec<(u64, usize)>)
    ensures
        final(v)@.to_multiset() == old(v)@.to_multiset(),
        forall|a: int, b: int| 0 <= a < b < final(v)@.len() ==> pair_le(final(v)@[a], final(v)@[b]),
{
    v.sort();
}

/// The GRTS order of the points: their indices sorted by key (stable).
pub fn grts_order(keys: &Vec<u64>) -> (order: Vec<usize>)
    ensures
        is_stable_order(keys@, order@),
{
    broadcast use group_to_multiset_ensures;

    let n = keys.len();
    let mut pairs: Vec<(u64, usize)> = Vec::with_capacity(n);
    for i in 0..n
        invariant
            n == keys.len(),
            pairs@.len() == i,
            forall|j: int| 0 <= j < i ==> #[trigger] pairs@[j] == (keys@[j], j as usize),
    {
        pairs.push((keys[i], i));
    }
    let ghost init = pairs@;
    proof {
        assert(init.no_duplicates()) by {
            assert forall|a: int, b: int| 0 <= a < init.len() && 0 <= b < init.len() && a != b implies init[a] != init[b] by {
                assert(init[a].1 == a && init[b].1 == b);
            }
        }
        init.lemma_multiset_has_no_duplicates();
    }
    sort_pairs(&mut pairs);
    let ghost sorted = pairs@;
    proof {
        sorted.lemma_multiset_has_no_duplicates_conv();
        assert(sorted.to_multiset().len() == init.to_multiset().len());
        assert(sorted.len() == n);
        assert forall|r: int| 0 <= r < sorted.len() implies #[trigger] sorted[r].1 < n && sorted[r] == (
        keys@[sorted[r].1 as int], sorted[r].1) by {
            assert(sorted.contains(sorted[r]));
            assert(init.to_multiset().count(sorted[r]) > 0);
            assert(init.contains(sorted[r]));
            let j = choose|j: int| 0 <= j < init.len() && init[j] == sorted[r];
        }
        assert forall|j: int| 0 <= j < n implies #[trigger] id_appears(sorted, j) by {
            assert(init.contains(init[j]));
            assert(sorted.to_multiset().count(init[j]) > 0);
            assert(sorted.contains(init[j]));
            let r = choose|r: int| 0 <= r < sorted.len() && sorted[r] == init[j];
            assert(sorted[r].1 == j);
        }
    }
    let mut order: Vec<usize> = Vec::with_capacity(n);
    for r in 0..n
        invariant
            n == keys.len(),
            sorted == pairs@,
            sorted.len() == n,
            order@.len() == r,
            forall|q: int| 0 <= q < r ==> #[trigger] order@[q] == sorted[q].1,
    {
        order.push(pairs[r].1);
    }
    proof {
        assert forall|j: int| 0 <= j < keys.len() implies #[trigger] appears(order@, j) by {
            assert(id_appears(sorted, j));
            let r = choose|r: int| 0 <= r < sorted.len() && sorted[r].1 == j;
            assert(order@[r] == j);
        }
        assert forall|r1: int, r2: int| 0 <= r1 < r2 < order@.len() implies keys@[#[trigger] order@[r1] as int] < keys@[#[trigger] order@[r2] as int] || (
        keys@[order@[r1] as int] == keys@[order@[r2] as int] && order@[r1] < order@[r2]) by {
            assert(pair_le(sorted[r1], sorted[r2]));
            assert(sorted[r1] != sorted[r2]);
            assert(sorted[r1] == (keys@[sorted[r1].1 as int], sorted[r1].1));
            assert(sorted[r2] == (keys@[sorted[r2].1 as int], sorted[r2].1));
        }
        assert forall|r: int| 0 <= r < order@.len() implies #[trigger] order@[r] < keys@.len() by {
            assert(sorted[r].1 < n);
        }
    }
    order
}

/// The rank of every point: the inverse of the GRTS order.
pub fn ranks_from_order(order: &Vec<usize>) -> (ranks: Vec<usize>)
    requires
        is_permutation(order@),
    ensures
        is_inverse(order@, ranks@),
{
    let n = order.len();
    let mut ranks: Vec<usize> = Vec::with_capacity(n);
    for j in 0..n
        invariant
            ranks@.len() == j,
    {
        ranks.push(0);
    }
    for r in 0..n
        invariant
            n == order@.len(),
            ranks@.len() == n,
            forall|q: int| 0 <= q < order@.len() ==> #[trigger] order@[q] < order@.len(),
            forall|q1: int, q2: int| 0 <= q1 < q2 < order@.len() ==> order@[q1] != order@[q2],
            forall|q: int| 0 <= q < r ==> #[trigger] ranks@[order@[q] as int] == q,
    {
        let j = order[r];
        ranks.set(j, r);
        assert forall|q: int| 0 <= q < r + 1 implies #[trigger] ranks@[order@[q] as int] == q by {
            if q < r {
                assert(order@[q] != order@[r as int]);
            }
        }
    }
    proof {
        assert forall|j: int| 0 <= j < ranks@.len() implies #[trigger] order@[ranks@[j] as int] == j by {
            assert(appears(order@, j));
            let r = choose|r: int| 0 <= r < order@.len() && order@[r] == j;
            assert(ranks@[order@[r] as int] == r);
        }
        assert forall|j: int| 0 <= j < ranks@.len() implies #[trigger] ranks@[j] < ranks@.len() by {
            assert(appears(order@, j));
            let r = choose|r: int| 0 <= r < order@.len() && order@[r] == j;
            assert(ranks@[order@[r] as int] == r);
        }
    }
    ranks
}

/// The GRTS order of the points together with the rank of every point.
pub fn grts_ranking(keys: &Vec<u64>) -> (res: (Vec<usize>, Vec<usize>))
    ensures
        is_stable_order(keys@, res.0@),
        is_inverse(res.0@, res.1@),
{
    let order = grts_order(keys);
    proof {
        lemma_stable_order_is_permutation(keys@, order@);
    }
    let ranks = ranks_from_order(&order);
    (order, ranks)
}

/// Point `a` precedes point `b` in the GRTS order exactly when its key is
/// smaller, or equal with a smaller index.
pub proof fn lemma_rank_compare(keys: Seq<u64>, order: Seq<usize>, ranks: Seq<usize>, a: int, b: int)
    requires
        is_stable_order(keys, order),
        is_inverse(order, ranks),
        0 <= a < keys.len(),
        0 <= b < keys.len(),
        a != b,
    ensures
        (ranks[a] < ranks[b]) == (keys[a] < keys[b] || (keys[a] == keys[b] && a < b)),
{
    let ra = ranks[a] as int;
    let rb = ranks[b] as int;
    assert(order[ra] == a && order[rb] == b);
    if ra < rb {
        assert(keys[order[ra] as int] < keys[order[rb] as int] || (keys[order[ra] as int] == keys[
            order[rb] as int] && order[ra] < order[rb]));
    } else if rb < ra {
        assert(keys[order[rb] as int] < keys[order[ra] as int] || (keys[order[rb] as int] == keys[
            order[ra] as int] && order[rb] < order[ra]));
    }
}

/// Truncating or extending the sample keeps the visiting order: when the
/// first `m` keys of a larger sample are the keys of a smaller one, two of
/// the first `m` points are ranked in the same order in both samples.
pub proof fn lemma_ranks_prefix_consistent(
    keys_n: Seq<u64>,
    order_n: Seq<usize>,
    ranks_n: Seq<usize>,
    keys_m: Seq<u64>,
    order_m: Seq<usize>,
    ranks_m: Seq<usize>,
    a: int,
    b: int,
)
    requires
        keys_m.len() <= keys_n.len(),
        keys_m == keys_n.take(keys_m.len() as int),
        is_stable_order(keys_n, order_n),
        is_inverse(order_n, ranks_n),
        is_stable_order(keys_m, order_m),
        is_inverse(order_m, ranks_m),
        0 <= a < keys_m.len(),
        0 <= b < keys_m.len(),
    ensures
        (ranks_m[a] < ranks_m[b]) == (ranks_n[a] < ranks_n[b]),
{
    if a != b {
        lemma_rank_compare(keys_n, order_n, ranks_n, a, b);
        lemma_rank_compare(keys_m, order_m, ranks_m, a, b);
    }
}

} // verus!
