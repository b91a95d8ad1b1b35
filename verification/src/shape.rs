//! The structure of a sampling frame: which polygons it is made of and the
//! signed rings whose areas are measured. Coordinates stay with the caller;
//! a polygon is named by its position among the polygons of the frame in
//! document order (collections flattened, multipolygons expanded).

use vstd::prelude::*;
use crate::sampler::SamplingError;

verus! {

/// A polygon of the frame, by its number of holes (interior rings).
#[derive(Debug, Clone, Copy, PartialEq, Eq, Structural)]
pub struct PolygonRef {
    pub holes: usize,
}

/// The shape of a decoded geometry.
#[derive(Debug, PartialEq, Eq)]
pub enum Shape {
    Polygon(PolygonRef),
    MultiPolygon(Vec<PolygonRef>),
    Collection(Vec<Shape>),
    /// Any other geometry type (points, lines, ...).
    Unsupported,
}

/// One ring whose clipped area counts: ring 0 of polygon `polygon` is its
/// exterior, ring `k + 1` its hole `k`. Exteriors count positively, holes
/// negatively.
#[derive(Debug, Clone, Copy, PartialEq, Eq, Structural)]
pub struct RingRef {
    pub polygon: usize,
    pub ring: usize,
    pub exterior: bool,
}

impl RingRef {
    /// The sign of the ring's area: +1 for an exterior, -1 for a hole.
    pub fn sign(&self) -> (s: i8)
        ensures
            s == (if self.exterior {
                1i8
            } else {
                -1i8
            }),
    {
        if self.exterior {
            1
        } else {
            -1
        }
    }
}

/// The rings of polygon number `id`: its exterior, then its holes in order.
pub open spec fn polygon_rings(p: PolygonRef, id: nat) -> Seq<RingRef> {
    seq![RingRef { polygon: id as usize, ring: 0, exterior: true }] + Seq::new(
        p.holes as nat,
        |k: int| RingRef { polygon: id as usize, ring: (k + 1) as usize, exterior: false },
    )
}

/// The rings of a list of polygons numbered from `base` on, in order.
pub open spec fn polygons_rings(ps: Seq<PolygonRef>, base: nat) -> Seq<RingRef>
    decreases ps.len(),
{
    if ps.len() == 0 {
        seq![]
    } else {
        polygons_rings(ps.subrange(0, ps.len() - 1), base) + polygon_rings(
            ps.last(),
            (base + ps.len() - 1) as nat,
        )
    }
}

/// Every part of the shape, at any depth of nesting, is a polygon or a
/// multipolygon.
pub open spec fn is_polygonal(s: Shape) -> bool
    decreases s,
{
    match s {
        Shape::Polygon(_) => true,
        Shape::MultiPolygon(_) => true,
        Shape::Collection(v) => forall|i: int| 0 <= i < v@.len() ==> is_polygonal(#[trigger] v@[i]),
        Shape::Unsupported => false,
    }
}

/// The polygons of a shape in document order, through nested collections;
/// parts that are not polygonal are passed over.
pub open spec fn shape_polygons(s: Shape) -> Seq<PolygonRef>
    decreases s, 1nat,
{
    match s {
        Shape::Polygon(p) => seq![p],
        Shape::MultiPolygon(ps) => ps@,
        Shape::Collection(v) => shape_list_polygons(v@),
        Shape::Unsupported => seq![],
    }
}

/// The polygons of a list of shapes, in order.
pub open spec fn shape_list_polygons(v: Seq<Shape>) -> Seq<PolygonRef>
    decreases v, 0nat,
{
    if v.len() == 0 {
        seq![]
    } else {
        shape_list_polygons(v.subrange(0, v.len() - 1)) + shape_polygons(v[v.len() - 1])
    }
}

/// The signed rings of a polygonal shape, in document order.
pub open spec fn shape_rings(s: Shape) -> Seq<RingRef> {
    polygons_rings(shape_polygons(s), 0)
}

/// The polygons met, in document order, before the first part that is not
/// polygonal (all polygons of a polygonal shape).
pub open spec fn leading_polygons(s: Shape) -> Seq<PolygonRef>
    decreases s, 1nat,
{
    match s {
        Shape::Polygon(p) => seq![p],
        Shape::MultiPolygon(ps) => ps@,
        Shape::Collection(v) => leading_list_polygons(v@),
        Shape::Unsupported => seq![],
    }
}

/// The polygons of a list of shapes met before its first part that is not
/// polygonal.
pub open spec fn leading_list_polygons(v: Seq<Shape>) -> Seq<PolygonRef>
    decreases v, 0nat,
{
    if v.len() == 0 {
        seq![]
    } else {
        let pre = v.subrange(0, v.len() - 1);
        if forall|i: int| 0 <= i < pre.len() ==> is_polygonal(#[trigger] pre[i]) {
            shape_list_polygons(pre) + leading_polygons(v[v.len() - 1])
        } else {
            leading_list_polygons(pre)
        }
    }
}

/// The rings of two lists of polygons, one after the other, are numbered on.
pub proof fn lemma_polygons_rings_append(ps: Seq<PolygonRef>, qs: Seq<PolygonRef>, base: nat)
    ensures
        polygons_rings(ps + qs, base) == polygons_rings(ps, base) + polygons_rings(
            qs,
            base + ps.len(),
        ),
    decreases qs.len(),
{
    if qs.len() == 0 {
        assert(ps + qs =~= ps);
    } else {
        let qpre = qs.subrange(0, qs.len() - 1);
        lemma_polygons_rings_append(ps, qpre, base);
        assert((ps + qs).subrange(0, (ps + qs).len() - 1) =~= ps + qpre);
        assert((ps + qs).last() == qs.last());
    }
}

/// Every polygon brings at least its exterior ring.
proof fn lemma_polygons_rings_len(ps: Seq<PolygonRef>, base: nat)
    ensures
        polygons_rings(ps, base).len() >= ps.len(),
    decreases ps.len(),
{
    if ps.len() > 0 {
        lemma_polygons_rings_len(ps.subrange(0, ps.len() - 1), base);
    }
}

proof fn lemma_leading_list_at_failure(v: Seq<Shape>, i: int, j: int)
    requires
        0 <= i < j <= v.len(),
        forall|q: int| 0 <= q < i ==> is_polygonal(#[trigger] v[q]),
        !is_polygonal(v[i]),
    ensures
        leading_list_polygons(v.subrange(0, j)) == shape_list_polygons(v.subrange(0, i))
            + leading_polygons(v[i]),
    decreases j,
{
    let w = v.subrange(0, j);
    let pre = w.subrange(0, w.len() - 1);
    assert(pre =~= v.subrange(0, j - 1));
    if j == i + 1 {
        assert forall|q: int| 0 <= q < pre.len() implies is_polygonal(#[trigger] pre[q]) by {
            assert(pre[q] == v[q]);
        }
    } else {
        lemma_leading_list_at_failure(v, i, j - 1);
        assert(pre[i] == v[i]);
        assert(!is_polygonal(pre[i]));
    }
}

/// The number of rings of a list of polygons: each brings its exterior and
/// one ring per hole.
pub open spec fn ring_count(ps: Seq<PolygonRef>) -> nat
    decreases ps.len(),
{
    if ps.len() == 0 {
        0
    } else {
        ring_count(ps.subrange(0, ps.len() - 1)) + 1 + ps.last().holes as nat
    }
}

/// Where ring `h` of polygon `j` of the list stands among the rings: after
/// all the rings of the polygons before it.
pub open spec fn ring_position(ps: Seq<PolygonRef>, j: int, h: int) -> int {
    ring_count(ps.take(j)) + h
}

/// Ring `h` of polygon number `id`: the exterior for `h == 0`, else hole
/// `h - 1`.
pub open spec fn ring_ref(id: int, h: int) -> RingRef {
    RingRef { polygon: id as usize, ring: h as usize, exterior: h == 0 }
}

proof fn lemma_ring_count_take(ps: Seq<PolygonRef>, j: int)
    requires
        0 <= j < ps.len(),
    ensures
        ring_count(ps.take(j + 1)) == ring_count(ps.take(j)) + 1 + ps[j].holes,
        ring_count(ps.take(j + 1)) <= ring_count(ps),
    decreases ps.len(),
{
    let t = ps.take(j + 1);
    assert(t.subrange(0, t.len() - 1) =~= ps.take(j));
    if j + 1 < ps.len() {
        let pre = ps.subrange(0, ps.len() - 1);
        lemma_ring_count_take(pre, j);
        assert(pre.take(j + 1) =~= t);
    } else {
        assert(t =~= ps);
    }
}

/// The rings of a list of polygons numbered from `base`: for each polygon
/// in order, its exterior and then one ring per hole.
pub proof fn lemma_polygons_rings_layout(ps: Seq<PolygonRef>, base: nat)
    ensures
        polygons_rings(ps, base).len() == ring_count(ps),
        forall|j: int, h: int|
            0 <= j < ps.len() && 0 <= h <= ps[j].holes ==> #[trigger] polygons_rings(ps, base)[
                ring_position(ps, j, h)] == ring_ref(base + j, h),
    decreases ps.len(),
{
    if ps.len() > 0 {
        let n = ps.len() as int;
        let pre = ps.subrange(0, n - 1);
        lemma_polygons_rings_layout(pre, base);
        let all = polygons_rings(ps, base);
        let last = polygon_rings(ps.last(), (base + n - 1) as nat);
        assert(all == polygons_rings(pre, base) + last);
        assert(ps.take(n - 1) =~= pre);
        assert forall|j: int, h: int| 0 <= j < n && 0 <= h <= ps[j].holes implies #[trigger] all[
            ring_position(ps, j, h)] == ring_ref(base + j, h) by {
            if j < n - 1 {
                lemma_ring_count_take(pre, j);
                assert(pre.take(j) =~= ps.take(j));
                assert(pre[j] == ps[j]);
                assert(ring_position(ps, j, h) == ring_position(pre, j, h));
            } else {
                assert(ring_position(ps, j, h) == ring_count(pre) + h);
                if h > 0 {
                    assert(last[h] == RingRef {
                        polygon: (base + n - 1) as usize,
                        ring: h as usize,
                        exterior: false,
                    });
                }
            }
        }
    }
}

/// The signed rings of any shape hold, for each of its polygons in document
/// order, the exterior and then one hole ring per interior: their number is
/// the sum over the polygons of one plus the number of holes.
pub proof fn lemma_shape_rings_layout(s: Shape)
    ensures
        shape_rings(s).len() == ring_count(shape_polygons(s)),
        forall|j: int, h: int|
            0 <= j < shape_polygons(s).len() && 0 <= h <= shape_polygons(s)[j].holes
                ==> #[trigger] shape_rings(s)[ring_position(shape_polygons(s), j, h)] == ring_ref(
                j,
                h,
            ),
{
    lemma_polygons_rings_layout(shape_polygons(s), 0);
}

/// The signed rings of a multipolygon: for each of its polygons in order,
/// the exterior and then one hole ring per interior.
pub proof fn lemma_multipolygon_rings(v: Vec<PolygonRef>)
    ensures
        shape_rings(Shape::MultiPolygon(v)).len() == ring_count(v@),
        forall|j: int, h: int|
            0 <= j < v@.len() && 0 <= h <= v@[j].holes ==> #[trigger] shape_rings(
                Shape::MultiPolygon(v),
            )[ring_position(v@, j, h)] == ring_ref(j, h),
{
    lemma_shape_rings_layout(Shape::MultiPolygon(v));
}

proof fn lemma_polygon_list(parts: Seq<Shape>, ps: Seq<PolygonRef>)
    requires
        parts.len() == ps.len(),
        forall|i: int| 0 <= i < parts.len() ==> #[trigger] parts[i] == Shape::Polygon(ps[i]),
    ensures
        shape_list_polygons(parts) == ps,
    decreases parts.len(),
{
    if parts.len() > 0 {
        let n = parts.len() as int;
        lemma_polygon_list(parts.subrange(0, n - 1), ps.subrange(0, n - 1));
        assert(parts.subrange(0, n - 1).len() == ps.subrange(0, n - 1).len());
        assert(parts[n - 1] == Shape::Polygon(ps[n - 1]));
        assert(shape_polygons(parts[n - 1]) == seq![ps[n - 1]]);
        assert(shape_list_polygons(parts) == shape_list_polygons(parts.subrange(0, n - 1))
            + shape_polygons(parts[n - 1]));
        assert(ps.subrange(0, n - 1) + seq![ps[n - 1]] =~= ps);
    } else {
        assert(ps =~= Seq::<PolygonRef>::empty());
    }
}

/// A multipolygon gives the same signed rings as the collection of its
/// polygons.
pub proof fn lemma_multipolygon_as_collection(v: Vec<PolygonRef>, parts: Vec<Shape>)
    requires
        parts@.len() == v@.len(),
        forall|i: int| 0 <= i < parts@.len() ==> #[trigger] parts@[i] == Shape::Polygon(v@[i]),
    ensures
        shape_polygons(Shape::MultiPolygon(v)) == shape_polygons(Shape::Collection(parts)),
        shape_rings(Shape::MultiPolygon(v)) == shape_rings(Shape::Collection(parts)),
{
    lemma_polygon_list(parts@, v@);
}

proof fn lemma_list_polygons_append(a: Seq<Shape>, b: Seq<Shape>)
    ensures
        shape_list_polygons(a + b) == shape_list_polygons(a) + shape_list_polygons(b),
    decreases b.len(),
{
    if b.len() == 0 {
        assert(a + b =~= a);
        assert(shape_list_polygons(a) + shape_list_polygons(b) =~= shape_list_polygons(a));
    } else {
        let bpre = b.subrange(0, b.len() - 1);
        lemma_list_polygons_append(a, bpre);
        assert((a + b).subrange(0, (a + b).len() - 1) =~= a + bpre);
        assert((a + b)[(a + b).len() - 1] == b[b.len() - 1]);
        assert(shape_list_polygons(a) + shape_list_polygons(b) =~= shape_list_polygons(a)
            + shape_list_polygons(bpre) + shape_polygons(b[b.len() - 1]));
    }
}

/// The polygons of a collection are those of its members, one member after
/// the other: an empty collection has none, a collection of one member has
/// that member's, and a collection split in two has those of the first part
/// followed by those of the second.
pub proof fn lemma_collection_polygons(v: Vec<Shape>, a: Vec<Shape>, b: Vec<Shape>)
    ensures
        v@.len() == 0 ==> shape_polygons(Shape::Collection(v)).len() == 0,
        v@.len() == 1 ==> shape_polygons(Shape::Collection(v)) == shape_polygons(v@[0]),
        v@ == a@ + b@ ==> shape_polygons(Shape::Collection(v)) == shape_polygons(
            Shape::Collection(a),
        ) + shape_polygons(Shape::Collection(b)),
{
    if v@.len() == 1 {
        assert(v@.subrange(0, 0) =~= Seq::<Shape>::empty());
        assert(shape_list_polygons(Seq::<Shape>::empty()) + shape_polygons(v@[0]) =~= shape_polygons(
            v@[0],
        ));
    }
    lemma_list_polygons_append(a@, b@);
}

/// Appends the rings of polygon number `id`: its exterior, then its holes.
fn push_polygon_rings(p: PolygonRef, id: usize, rings: &mut Vec<RingRef>)
    ensures
        final(rings)@ == old(rings)@ + polygon_rings(p, id as nat),
{
    rings.push(RingRef { polygon: id, ring: 0, exterior: true });
    let ghost start = old(rings)@;
    for k in 0..p.holes
        invariant
            rings@ == start + polygon_rings(p, id as nat).subrange(0, k + 1),
    {
        rings.push(RingRef { polygon: id, ring: k + 1, exterior: false });
        assert(rings@ =~= start + polygon_rings(p, id as nat).subrange(0, k + 2));
    }
    assert(polygon_rings(p, id as nat).subrange(0, p.holes + 1) =~= polygon_rings(p, id as nat));
}

/// Recursively collects the signed rings of every polygon of the shape;
/// collections are traversed at any depth. `count` numbers the polygons.
/// Fails on the first part, in document order, that is not a polygon or a
/// multipolygon; the rings of the polygons met before it stay collected.
fn collect_rings(shape: &Shape, rings: &mut Vec<RingRef>, count: &mut usize) -> (r: Result<
    (),
    SamplingError,
>)
    requires
        *old(count) <= old(rings)@.len(),
    ensures
        r is Ok <==> is_polygonal(*shape),
        r is Ok ==> final(rings)@ == old(rings)@ + polygons_rings(
            shape_polygons(*shape),
            *old(count) as nat,
        ) && *final(count) == *old(count) + shape_polygons(*shape).len(),
        r is Err ==> r == Err::<(), SamplingError>(SamplingError::NotPolygonal) && final(rings)@
            == old(rings)@ + polygons_rings(leading_polygons(*shape), *old(count) as nat)
            && *final(count) == *old(count) + leading_polygons(*shape).len(),
        *final(count) <= final(rings)@.len(),
    decreases shape,
{
    let ghost start = old(rings)@;
    let ghost c0 = *old(count);
    match shape {
        Shape::Polygon(p) => {
            push_polygon_rings(*p, *count, rings);
            assert(rings@.len() == rings.len());
            *count = *count + 1;
            assert(seq![*p].subrange(0, 0) =~= Seq::<PolygonRef>::empty());
            assert(polygons_rings(Seq::<PolygonRef>::empty(), c0 as nat) =~= Seq::<RingRef>::empty());
            assert(polygons_rings(seq![*p], c0 as nat) =~= polygon_rings(*p, c0 as nat));
            Ok(())
        },
        Shape::MultiPolygon(ps) => {
            for i in 0..ps.len()
                invariant
                    start == old(rings)@,
                    c0 == *old(count),
                    *count == c0 + i,
                    *count <= rings@.len(),
                    rings@ == start + polygons_rings(ps@.subrange(0, i as int), c0 as nat),
            {
                assert(ps@.subrange(0, i + 1).subrange(0, i as int) =~= ps@.subrange(0, i as int));
                push_polygon_rings(ps[i], *count, rings);
                assert(rings@.len() == rings.len());
                *count = *count + 1;
                assert(rings@ =~= start + polygons_rings(ps@.subrange(0, i + 1), c0 as nat));
            }
            assert(ps@.subrange(0, ps@.len() as int) =~= ps@);
            Ok(())
        },
        Shape::Collection(v) => {
            for i in 0..v.len()
                invariant
                    start == old(rings)@,
                    c0 == *old(count),
                    *shape == Shape::Collection(*v),
                    *count <= rings@.len(),
                    rings@ == start + polygons_rings(
                        shape_list_polygons(v@.subrange(0, i as int)),
                        c0 as nat,
                    ),
                    *count == c0 + shape_list_polygons(v@.subrange(0, i as int)).len(),
                    forall|j: int| 0 <= j < i ==> is_polygonal(#[trigger] v@[j]),
            {
                let ghost pre = shape_list_polygons(v@.subrange(0, i as int));
                assert(v@.subrange(0, i + 1).subrange(0, i as int) =~= v@.subrange(0, i as int));
                assert(decreases_to!(*shape => (*shape)->Collection_0));
                assert(decreases_to!(*v => v@));
                assert(decreases_to!(v@ => v@[i as int]));
                let res = collect_rings(&v[i], rings, count);
                match res {
                    Ok(()) => {
                        proof {
                            lemma_polygons_rings_append(pre, shape_polygons(v@[i as int]), c0 as nat);
                        }
                        assert(rings@ =~= start + polygons_rings(
                            shape_list_polygons(v@.subrange(0, i + 1)),
                            c0 as nat,
                        ));
                    },
                    Err(e) => {
                        proof {
                            lemma_polygons_rings_append(
                                pre,
                                leading_polygons(v@[i as int]),
                                c0 as nat,
                            );
                            lemma_leading_list_at_failure(v@, i as int, v@.len() as int);
                            assert(v@.subrange(0, v@.len() as int) =~= v@);
                            assert(leading_polygons(*shape) == leading_list_polygons(v@));
                            assert(leading_polygons(*shape) == pre + leading_polygons(v@[i as int]));
                            assert(rings@ == start + polygons_rings(pre, c0 as nat) + polygons_rings(
                                leading_polygons(v@[i as int]),
                                (c0 + pre.len()) as nat,
                            ));
                            assert(rings@ =~= start + polygons_rings(leading_polygons(*shape), c0 as nat));
                            assert(*count == c0 + leading_polygons(*shape).len());
                        }
                        assert(e == SamplingError::NotPolygonal);
                        assert(!is_polygonal(v@[i as int]));
                        assert(!is_polygonal(Shape::Collection(*v)));
                        assert(!is_polygonal(*shape));
                        return Err(e);
                    },
                }
            }
            assert(v@.subrange(0, v@.len() as int) =~= v@);
            Ok(())
        },
        Shape::Unsupported => Err(SamplingError::NotPolygonal),
    }
}

/// The signed rings of the shape, or the error for a shape with a part that
/// is neither a polygon nor a multipolygon.
pub fn extract_signed_rings(shape: &Shape) -> (r: Result<Vec<RingRef>, SamplingError>)
    ensures
        r is Ok <==> is_polygonal(*shape),
        r matches Ok(rings) ==> rings@ == shape_rings(*shape),
        r is Err ==> r == Err::<Vec<RingRef>, SamplingError>(SamplingError::NotPolygonal),
{
    let mut rings: Vec<RingRef> = Vec::new();
    let mut count: usize = 0;
    match collect_rings(shape, &mut rings, &mut count) {
        Ok(()) => {
            assert(rings@ =~= shape_rings(*shape));
            Ok(rings)
        },
        Err(e) => Err(e),
    }
}

/// The polygons whose bounding boxes make up the bounding box of the shape.
pub fn polygon_parts(shape: &Shape) -> (parts: Vec<PolygonRef>)
    ensures
        parts@ == shape_polygons(*shape),
    decreases shape,
{
    match shape {
        Shape::Polygon(p) => {
            let mut parts = Vec::new();
            parts.push(*p);
            assert(parts@ =~= seq![*p]);
            parts
        },
        Shape::MultiPolygon(ps) => {
            let mut parts = Vec::new();
            for i in 0..ps.len()
                invariant
                    parts@ == ps@.subrange(0, i as int),
            {
                parts.push(ps[i]);
                assert(parts@ =~= ps@.subrange(0, i + 1));
            }
            assert(ps@.subrange(0, ps@.len() as int) =~= ps@);
            parts
        },
        Shape::Collection(v) => {
            let mut parts: Vec<PolygonRef> = Vec::new();
            for i in 0..v.len()
                invariant
                    *shape == Shape::Collection(*v),
                    parts@ == shape_list_polygons(v@.subrange(0, i as int)),
            {
                assert(v@.subrange(0, i + 1).subrange(0, i as int) =~= v@.subrange(0, i as int));
                assert(decreases_to!(*shape => (*shape)->Collection_0));
                assert(decreases_to!(*v => v@));
                assert(decreases_to!(v@ => v@[i as int]));
                let mut inner = polygon_parts(&v[i]);
                parts.append(&mut inner);
                assert(parts@ =~= shape_list_polygons(v@.subrange(0, i + 1)));
            }
            assert(v@.subrange(0, v@.len() as int) =~= v@);
            parts
        },
        Shape::Unsupported => Vec::new(),
    }
}

} // verus!
