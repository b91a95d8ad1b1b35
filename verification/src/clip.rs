//! Sutherland-Hodgman clipping of a closed ring against one half-plane,
//! as a plan over the ring's vertices: which vertices are kept and between
//! which consecutive vertices the boundary is crossed (an intersection point
//! is emitted there). Which vertices lie inside is decided by the caller.

use vstd::prelude::*;

verus! {

/// One output point of the clipped ring.
#[derive(Debug, Clone, Copy, PartialEq, Eq, Structural)]
pub enum ClipStep {
    /// The intersection of the edge from vertex `from` to vertex `to` with
    /// the clipping line.
    Crossing { from: usize, to: usize },
    /// Vertex `i` itself.
    Keep(usize),
}

/// The vertex before `i` on the closed ring of `n` vertices.
pub open spec fn prev_vertex(n: int, i: int) -> int {
    if i == 0 {
        n - 1
    } else {
        i - 1
    }
}

/// The edge into vertex `i` crosses the clipping line.
pub open spec fn is_crossing(inside: Seq<bool>, i: int) -> bool {
    inside[i] != inside[prev_vertex(inside.len() as int, i)]
}

/// The output points contributed by vertex `i`: the crossing of its
/// incoming edge, if any, then the vertex itself if it is inside.
pub open spec fn vertex_steps(inside: Seq<bool>, i: int) -> Seq<ClipStep> {
    let p = prev_vertex(inside.len() as int, i);
    (if is_crossing(inside, i) {
        seq![ClipStep::Crossing { from: p as usize, to: i as usize }]
    } else {
        seq![]
    }) + (if inside[i] {
        seq![ClipStep::Keep(i as usize)]
    } else {
        seq![]
    })
}

/// The output points contributed by the first `k` vertices.
pub open spec fn clip_plan_upto(inside: Seq<bool>, k: int) -> Seq<ClipStep>
    decreases k,
{
    if k <= 0 {
        seq![]
    } else {
        clip_plan_upto(inside, k - 1) + vertex_steps(inside, k - 1)
    }
}

/// The clipped ring for the given inside flags of its vertices.
pub open spec fn clip_plan_spec(inside: Seq<bool>) -> Seq<ClipStep> {
    clip_plan_upto(inside, inside.len() as int)
}

/// Plans the clipping of a closed ring against one half-plane: walking the
/// vertices from the first, with the last vertex as the predecessor of the
/// first, an intersection is emitted on every edge that crosses the line and
/// every vertex inside is kept.
pub fn clip_plan(inside: &Vec<bool>) -> (plan: Vec<ClipStep>)
    ensures
        plan@ == clip_plan_spec(inside@),
{
    let n = inside.len();
    let mut out: Vec<ClipStep> = Vec::with_capacity(n);
    if n == 0 {
        return out;
    }
    let mut prev = n - 1;
    let mut prev_in = inside[n - 1];
    for i in 0..n
        invariant
            n == inside@.len(),
            n > 0,
            prev == prev_vertex(n as int, i as int),
            i < n ==> prev_in == inside@[prev as int],
            out@ == clip_plan_upto(inside@, i as int),
    {
        let curr_in = inside[i];
        if curr_in != prev_in {
            out.push(ClipStep::Crossing { from: prev, to: i });
        }
        if curr_in {
            out.push(ClipStep::Keep(i));
        }
        assert(out@ =~= clip_plan_upto(inside@, i + 1));
        prev = i;
        prev_in = curr_in;
    }
    out
}

/// Where an output point lies along the ring: the crossing on the edge into
/// vertex `i` just before vertex `i`, vertex `i` itself just after it.
pub open spec fn step_position(s: ClipStep) -> int {
    match s {
        ClipStep::Crossing { from, to } => 2 * to,
        ClipStep::Keep(i) => 2 * i + 1,
    }
}

/// The crossing on the edge of the closed ring of `n` vertices that ends
/// at vertex `i`.
pub open spec fn crossing_into(n: int, i: int) -> ClipStep {
    ClipStep::Crossing { from: (if i == 0 { n - 1 } else { i - 1 }) as usize, to: i as usize }
}

/// The output point is one that the clipped ring holds: a vertex on the
/// kept side, or the crossing of an edge of the closed ring whose two ends
/// lie on different sides.
pub open spec fn is_ring_step(inside: Seq<bool>, s: ClipStep) -> bool {
    let n = inside.len() as int;
    match s {
        ClipStep::Keep(i) => i < n && inside[i as int],
        ClipStep::Crossing { from, to } => to < n && s == crossing_into(n, to as int)
            && inside[to as int] != inside[from as int],
    }
}

/// Every point of the plan is one that the clipped ring holds.
pub open spec fn plan_steps_valid(inside: Seq<bool>, plan: Seq<ClipStep>) -> bool {
    forall|a: int| 0 <= a < plan.len() ==> is_ring_step(inside, #[trigger] plan[a])
}

/// The points of the plan come in the order of their places along the ring.
pub open spec fn plan_in_ring_order(plan: Seq<ClipStep>) -> bool {
    forall|a: int, b: int|
        0 <= a < b < plan.len() ==> step_position(#[trigger] plan[a]) < step_position(
            #[trigger] plan[b],
        )
}

/// The plan holds the point `s`.
pub open spec fn plan_has(plan: Seq<ClipStep>, s: ClipStep) -> bool {
    exists|a: int| 0 <= a < plan.len() && #[trigger] plan[a] == s
}

/// Every vertex on the kept side, and every crossing edge, occurs in the plan.
pub open spec fn plan_complete(inside: Seq<bool>, plan: Seq<ClipStep>, k: int) -> bool {
    &&& forall|i: int|
        0 <= i < k && #[trigger] inside[i] ==> plan_has(plan, ClipStep::Keep(i as usize))
    &&& forall|i: int|
        0 <= i < k && #[trigger] is_crossing(inside, i) ==> plan_has(
            plan,
            crossing_into(inside.len() as int, i),
        )
}

proof fn lemma_vertex_steps_order(inside: Seq<bool>, i: int)
    requires
        0 <= i < inside.len() <= usize::MAX,
    ensures
        plan_steps_valid(inside, vertex_steps(inside, i)),
        plan_in_ring_order(vertex_steps(inside, i)),
        forall|a: int|
            0 <= a < vertex_steps(inside, i).len() ==> 2 * i <= step_position(
                #[trigger] vertex_steps(inside, i)[a],
            ) <= 2 * i + 1,
        inside[i] ==> plan_has(vertex_steps(inside, i), ClipStep::Keep(i as usize)),
        is_crossing(inside, i) ==> plan_has(
            vertex_steps(inside, i),
            crossing_into(inside.len() as int, i),
        ),
{
    let vs = vertex_steps(inside, i);
    let n = inside.len() as int;
    if is_crossing(inside, i) {
        assert(vs[0] == crossing_into(n, i));
        if inside[i] {
            assert(vs[1] == ClipStep::Keep(i as usize));
        }
    } else if inside[i] {
        assert(vs[0] == ClipStep::Keep(i as usize));
    }
}

proof fn lemma_plan_order_upto(inside: Seq<bool>, k: int)
    requires
        0 <= k <= inside.len() <= usize::MAX,
    ensures
        plan_steps_valid(inside, clip_plan_upto(inside, k)),
        plan_in_ring_order(clip_plan_upto(inside, k)),
        forall|a: int|
            0 <= a < clip_plan_upto(inside, k).len() ==> 0 <= step_position(
                #[trigger] clip_plan_upto(inside, k)[a],
            ) < 2 * k,
        plan_complete(inside, clip_plan_upto(inside, k), k),
    decreases k,
{
    if k > 0 {
        lemma_plan_order_upto(inside, k - 1);
        lemma_vertex_steps_order(inside, k - 1);
        let n = inside.len() as int;
        let pre = clip_plan_upto(inside, k - 1);
        let vs = vertex_steps(inside, k - 1);
        let all = clip_plan_upto(inside, k);
        assert(all == pre + vs);
        assert forall|a: int| 0 <= a < all.len() implies is_ring_step(inside, #[trigger] all[a])
            && 0 <= step_position(all[a]) < 2 * k by {
            if a < pre.len() {
                assert(all[a] == pre[a]);
            } else {
                assert(all[a] == vs[a - pre.len()]);
            }
        }
        assert forall|a: int, b: int| 0 <= a < b < all.len() implies step_position(
            #[trigger] all[a],
        ) < step_position(#[trigger] all[b]) by {
            if b < pre.len() {
                assert(all[a] == pre[a] && all[b] == pre[b]);
            } else if a < pre.len() {
                assert(all[a] == pre[a] && all[b] == vs[b - pre.len()]);
            } else {
                assert(all[a] == vs[a - pre.len()] && all[b] == vs[b - pre.len()]);
            }
        }
        assert forall|i: int| 0 <= i < k && #[trigger] inside[i] implies plan_has(
            all,
            ClipStep::Keep(i as usize),
        ) by {
            if i < k - 1 {
                let a = choose|a: int|
                    0 <= a < pre.len() && #[trigger] pre[a] == ClipStep::Keep(i as usize);
                assert(all[a] == pre[a]);
            } else {
                let c = choose|c: int|
                    0 <= c < vs.len() && #[trigger] vs[c] == ClipStep::Keep(i as usize);
                assert(all[pre.len() + c] == vs[c]);
            }
        }
        assert forall|i: int| 0 <= i < k && #[trigger] is_crossing(inside, i) implies plan_has(
            all,
            crossing_into(n, i),
        ) by {
            if i < k - 1 {
                let a = choose|a: int| 0 <= a < pre.len() && #[trigger] pre[a] == crossing_into(n, i);
                assert(all[a] == pre[a]);
            } else {
                let c = choose|c: int| 0 <= c < vs.len() && #[trigger] vs[c] == crossing_into(n, i);
                assert(all[pre.len() + c] == vs[c]);
            }
        }
    }
}

/// The clipped ring visits its points in ring order, for rings of any
/// length: every point is a kept vertex or the crossing of an edge whose
/// ends lie on different sides, each such vertex and crossing occurs, and
/// the points come in the order of their places along the ring, so that the
/// crossing on the edge into vertex `i` comes right before vertex `i`.
pub proof fn lemma_clip_plan_ring_order(inside: Seq<bool>)
    requires
        inside.len() <= usize::MAX,
    ensures
        plan_steps_valid(inside, clip_plan_spec(inside)),
        plan_in_ring_order(clip_plan_spec(inside)),
        plan_complete(inside, clip_plan_spec(inside), inside.len() as int),
        forall|a: int|
            0 < a < clip_plan_spec(inside).len() && (#[trigger] clip_plan_spec(inside)[a]) is Keep
                && is_crossing(inside, clip_plan_spec(inside)[a]->Keep_0 as int) ==> clip_plan_spec(
                inside,
            )[a - 1] == crossing_into(inside.len() as int, clip_plan_spec(inside)[a]->Keep_0 as int),
{
    let n = inside.len() as int;
    lemma_plan_order_upto(inside, n);
    let plan = clip_plan_spec(inside);
    assert forall|a: int|
        0 < a < plan.len() && (#[trigger] plan[a]) is Keep && is_crossing(
            inside,
            plan[a]->Keep_0 as int,
        ) implies plan[a - 1] == crossing_into(n, plan[a]->Keep_0 as int) by {
        let i = plan[a]->Keep_0 as int;
        assert(is_ring_step(inside, plan[a]));
        assert(0 <= i < n && inside[i]);
        let c = choose|c: int| 0 <= c < plan.len() && #[trigger] plan[c] == crossing_into(n, i);
        assert(step_position(plan[c]) == 2 * i);
        assert(step_position(plan[a]) == 2 * i + 1);
        if c > a {
            assert(step_position(plan[a]) < step_position(plan[c]));
        }
        assert(c < a);
        if c < a - 1 {
            assert(step_position(plan[c]) < step_position(plan[a - 1]));
            assert(step_position(plan[a - 1]) < step_position(plan[a]));
        }
    }
}

/// Number of the first `k` vertices that are inside.
pub open spec fn count_inside(inside: Seq<bool>, k: int) -> nat
    decreases k,
{
    if k <= 0 {
        0
    } else {
        count_inside(inside, k - 1) + if inside[k - 1] {
            1nat
        } else {
            0nat
        }
    }
}

/// Number of crossing edges into the first `k` vertices.
pub open spec fn count_crossings(inside: Seq<bool>, k: int) -> nat
    decreases k,
{
    if k <= 0 {
        0
    } else {
        count_crossings(inside, k - 1) + if is_crossing(inside, k - 1) {
            1nat
        } else {
            0nat
        }
    }
}

proof fn lemma_plan_len_upto(inside: Seq<bool>, k: int)
    requires
        0 <= k <= inside.len(),
    ensures
        clip_plan_upto(inside, k).len() == count_inside(inside, k) + count_crossings(inside, k),
    decreases k,
{
    if k > 0 {
        lemma_plan_len_upto(inside, k - 1);
    }
}

proof fn lemma_crossing_parity_upto(inside: Seq<bool>, k: int)
    requires
        1 <= k <= inside.len(),
    ensures
        count_crossings(inside, k) % 2 == if inside[k - 1] != inside[inside.len() - 1] {
            1nat
        } else {
            0nat
        },
    decreases k,
{
    let n = inside.len() as int;
    if k > 1 {
        lemma_crossing_parity_upto(inside, k - 1);
        let c = count_crossings(inside, k - 1);
        assert(count_crossings(inside, k) == c + if is_crossing(inside, k - 1) {
            1nat
        } else {
            0nat
        });
        assert(prev_vertex(n, k - 1) == k - 2);
        if c % 2 == 0 {
            assert((c + 1) % 2 == 1);
        } else {
            assert((c + 1) % 2 == 0);
        }
    } else {
        assert(count_crossings(inside, 0) == 0);
        assert(prev_vertex(n, 0) == n - 1);
    }
}

/// The clipped ring has one point per kept vertex and one per crossing, and
/// a closed ring crosses the clipping line an even number of times.
pub proof fn lemma_clip_plan_counts(inside: Seq<bool>)
    ensures
        clip_plan_spec(inside).len() == count_inside(inside, inside.len() as int) + count_crossings(
            inside,
            inside.len() as int,
        ),
        count_crossings(inside, inside.len() as int) % 2 == 0,
{
    lemma_plan_len_upto(inside, inside.len() as int);
    if inside.len() > 0 {
        lemma_crossing_parity_upto(inside, inside.len() as int);
    }
}

proof fn lemma_all_inside_upto(inside: Seq<bool>, k: int)
    requires
        0 <= k <= inside.len(),
        forall|i: int| 0 <= i < inside.len() ==> #[trigger] inside[i],
    ensures
        clip_plan_upto(inside, k) == Seq::new(k as nat, |i: int| ClipStep::Keep(i as usize)),
    decreases k,
{
    if k > 0 {
        lemma_all_inside_upto(inside, k - 1);
        assert(inside[prev_vertex(inside.len() as int, k - 1)]);
        assert(clip_plan_upto(inside, k) =~= Seq::new(k as nat, |i: int| ClipStep::Keep(i as usize)));
    }
}

proof fn lemma_none_inside_upto(inside: Seq<bool>, k: int)
    requires
        0 <= k <= inside.len(),
        forall|i: int| 0 <= i < inside.len() ==> !#[trigger] inside[i],
    ensures
        clip_plan_upto(inside, k) == Seq::<ClipStep>::empty(),
    decreases k,
{
    if k > 0 {
        lemma_none_inside_upto(inside, k - 1);
        assert(!inside[prev_vertex(inside.len() as int, k - 1)]);
        assert(clip_plan_upto(inside, k) =~= Seq::<ClipStep>::empty());
    }
}

/// A ring entirely on the kept side is left as it is; a ring entirely on
/// the other side vanishes.
pub proof fn lemma_clip_plan_whole_ring(inside: Seq<bool>)
    ensures
        (forall|i: int| 0 <= i < inside.len() ==> #[trigger] inside[i]) ==> clip_plan_spec(inside)
            == Seq::new(inside.len(), |i: int| ClipStep::Keep(i as usize)),
        (forall|i: int| 0 <= i < inside.len() ==> !#[trigger] inside[i]) ==> clip_plan_spec(inside)
            == Seq::<ClipStep>::empty(),
{
    if forall|i: int| 0 <= i < inside.len() ==> #[trigger] inside[i] {
        lemma_all_inside_upto(inside, inside.len() as int);
    }
    if forall|i: int| 0 <= i < inside.len() ==> !#[trigger] inside[i] {
        lemma_none_inside_upto(inside, inside.len() as int);
    }
}

} // verus!
