//! Partition of the points of one quadtree cell among its four children.
//!
//! The points of a cell are sorted by their area target. The children are
//! visited in Z order and each child owns the targets below the cumulative
//! area of the children up to it; the split positions are found by scanning.
//! Area targets and thresholds are passed as order-preserving 64-bit keys.

use vstd::prelude::*;

verus! {

/// `e` ends the run of keys below `t` that starts at `lo` in `keys[lo..hi]`.
pub open spec fn is_run_end(keys: Seq<u64>, lo: int, hi: int, t: u64, e: int) -> bool {
    &&& lo <= e <= hi
    &&& forall|j: int| lo <= j < e ==> #[trigger] keys[j] < t
    &&& e == hi || keys[e] >= t
}

/// Keys in ascending order.
pub open spec fn is_sorted(keys: Seq<u64>) -> bool {
    forall|a: int, b: int| 0 <= a <= b < keys.len() ==> keys[a] <= keys[b]
}

/// The end of the run of keys below `t` starting at `lo`.
pub fn run_end(keys: &[u64], lo: usize, t: u64) -> (e: usize)
    requires
        lo <= keys@.len(),
    ensures
        is_run_end(keys@, lo as int, keys@.len() as int, t, e as int),
{
    let mut e = lo;
    while e < keys.len() && keys[e] < t
        invariant
            lo <= e <= keys@.len(),
            forall|j: int| lo <= j < e ==> #[trigger] keys@[j] < t,
        decreases keys@.len() - e,
    {
        e += 1;
    }
    e
}

/// Splits the sorted keys of a cell among its four children: the first
/// child takes the leading keys below `t0`, the second the following keys
/// below `t1`, the third the following keys below `t2`, the fourth the rest.
/// Returns the three split positions.
pub fn quadrant_splits(keys: &[u64], t0: u64, t1: u64, t2: u64) -> (s: (usize, usize, usize))
    ensures
        is_run_end(keys@, 0, keys@.len() as int, t0, s.0 as int),
        is_run_end(keys@, s.0 as int, keys@.len() as int, t1, s.1 as int),
        is_run_end(keys@, s.1 as int, keys@.len() as int, t2, s.2 as int),
{
    let i0 = run_end(keys, 0, t0);
    let i1 = run_end(keys, i0, t1);
    let i2 = run_end(keys, i1, t2);
    (i0, i1, i2)
}

/// With sorted keys and ascending thresholds the scan partitions the points
/// by value: each child receives exactly the keys between its thresholds.
pub proof fn lemma_quadrant_splits_by_value(
    keys: Seq<u64>,
    t0: u64,
    t1: u64,
    t2: u64,
    s: (usize, usize, usize),
)
    requires
        is_sorted(keys),
        t0 <= t1 <= t2,
        is_run_end(keys, 0, keys.len() as int, t0, s.0 as int),
        is_run_end(keys, s.0 as int, keys.len() as int, t1, s.1 as int),
        is_run_end(keys, s.1 as int, keys.len() as int, t2, s.2 as int),
    ensures
        forall|j: int| 0 <= j < keys.len() ==> (j < s.0 <==> #[trigger] keys[j] < t0),
        forall|j: int| 0 <= j < keys.len() ==> (j < s.1 <==> #[trigger] keys[j] < t1),
        forall|j: int| 0 <= j < keys.len() ==> (j < s.2 <==> #[trigger] keys[j] < t2),
{
    assert forall|j: int| 0 <= j < keys.len() implies (j < s.0 <==> #[trigger] keys[j] < t0) by {
        if j >= s.0 {
            assert(keys[s.0 as int] <= keys[j]);
        }
    }
    assert forall|j: int| 0 <= j < keys.len() implies (j < s.1 <==> #[trigger] keys[j] < t1) by {
        if j >= s.1 {
            assert(keys[s.1 as int] <= keys[j]);
        } else if j < s.0 {
            assert(keys[j] < t0);
        }
    }
    assert forall|j: int| 0 <= j < keys.len() implies (j < s.2 <==> #[trigger] keys[j] < t2) by {
        if j >= s.2 {
            assert(keys[s.2 as int] <= keys[j]);
        } else if j < s.0 {
            assert(keys[j] < t0);
        } else if j < s.1 {
            assert(keys[j] < t1);
        }
    }
}

} // verus!
