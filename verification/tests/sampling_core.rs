use sbsampling::bits::reverse_bits;
use sbsampling::clip::{clip_plan, ClipStep};
use sbsampling::frame::{decode_wkb_frame, frame_polygons, frame_rings, WkbFrame};
use sbsampling::hash::{dim_seed, fold_seed, lk_hash, owen_scramble};
use sbsampling::morton::morton_interleave;
use sbsampling::quadtree::quadrant_splits;
use sbsampling::ranking::{grts_order, grts_ranking, ranks_from_order};
use sbsampling::sampler::{sample_size, sequence_keys, SamplingError};
use sbsampling::shape::{extract_signed_rings, polygon_parts, PolygonRef, RingRef, Shape};
use sbsampling::sobol::sobol_raw;

const JOE_KUO_DIM1: [u32; 32] = [
    0x80000000, 0xc0000000, 0xa0000000, 0xf0000000, 0x88000000, 0xcc000000, 0xaa000000,
    0xff000000, 0x80800000, 0xc0c00000, 0xa0a00000, 0xf0f00000, 0x88880000, 0xcccc0000,
    0xaaaa0000, 0xffff0000, 0x80008000, 0xc000c000, 0xa000a000, 0xf000f000, 0x88008800,
    0xcc00cc00, 0xaa00aa00, 0xff00ff00, 0x80808080, 0xc0c0c0c0, 0xa0a0a0a0, 0xf0f0f0f0,
    0x88888888, 0xcccccccc, 0xaaaaaaaa, 0xffffffff,
];

#[test]
fn lk_hash_known_values() {
    assert_eq!(lk_hash(0, 0), 0);
    assert_eq!(lk_hash(1, 0), 0x3eaef8dd);
    assert_eq!(lk_hash(0x12345678, 0x9abcdef0), 0xfb1d0b68);
    assert_eq!(lk_hash(0xdeadbeef, 42), 0x8ec22925);
}

#[test]
fn dim_seed_known_values() {
    assert_eq!(dim_seed(0, 0), 0x9e3779b9);
    assert_eq!(dim_seed(0, 1), 0x5ab6ff64);
    assert_eq!(dim_seed(123, 0), 0xc1ff6250);
    assert_eq!(dim_seed(123, 1), 0x4c48bcb3);
}

#[test]
fn zero_seed_gives_nonzero_dimension_seeds() {
    assert_ne!(dim_seed(0, 0), 0);
    assert_ne!(dim_seed(0, 1), 0);
}

#[test]
fn zero_seed_dimension_seed_vanishes_for_some_far_dimension() {
    // Only dimensions 0 and 1 are used by the sampler.
    assert_eq!(dim_seed(0, 0x44c8033d), 0);
}

#[test]
fn reverse_bits_matches_std() {
    for x in [0u32, 1, 0x12345678, 0x80000000, 0xdeadbeef, u32::MAX] {
        assert_eq!(reverse_bits(x), x.reverse_bits());
    }
    assert_eq!(reverse_bits(0x12345678), 0x1e6a2c48);
}

#[test]
fn owen_scramble_known_values() {
    assert_eq!(owen_scramble(0, 0), 0);
    assert_eq!(owen_scramble(0x80000000, 0x9e3779b9), 0x23eb314f);
    assert_eq!(owen_scramble(0x12345678, 0x5ab6ff64), 0x32df9fe2);
}

#[test]
fn owen_scramble_keeps_dyadic_intervals_together() {
    let seed = 0x5ab6ff64;
    for s in [4u32, 12, 20, 28] {
        let a = 0x9abc_def0u32;
        let b = (a >> s << s) | 0x5;
        assert_eq!(owen_scramble(a, seed) >> s, owen_scramble(b, seed) >> s);
    }
}

#[test]
fn owen_scramble_is_a_permutation_of_small_prefixes() {
    // The top 8 bits of the 256 dyadic intervals of length 2^-8 are permuted.
    let seed = 0xc1ff6250;
    let mut seen = vec![false; 256];
    for top in 0u32..256 {
        let cell = owen_scramble(top << 24, seed) >> 24;
        assert!(!seen[cell as usize]);
        seen[cell as usize] = true;
    }
}

#[test]
fn fold_seed_distinguishes_nearby_doubles() {
    let one = fold_seed(1.0f64.to_bits());
    let two = fold_seed(2.0f64.to_bits());
    assert_eq!(one, 0x3ff00000);
    assert_eq!(two, 0x40000000);
    assert_ne!(one, two);
    assert_eq!(fold_seed(0.0f64.to_bits()), 0);
    assert_eq!(fold_seed(123.0f64.to_bits()), 0x405ec000);
}

#[test]
fn sobol_dim0_is_van_der_corput() {
    for i in [0u32, 1, 2, 3, 7, 1000, 0x12345678, u32::MAX] {
        assert_eq!(sobol_raw(i, 0), i.reverse_bits());
    }
}

#[test]
fn sobol_dim1_first_points() {
    let expected = [
        0x0u32, 0x80000000, 0xc0000000, 0x40000000, 0xa0000000, 0x20000000, 0x60000000,
        0xe0000000,
    ];
    for (i, e) in expected.iter().enumerate() {
        assert_eq!(sobol_raw(i as u32, 1), *e);
    }
}

#[test]
fn sobol_direction_numbers_match_joe_kuo_table() {
    for i in 0..32 {
        assert_eq!(sobol_raw(1u32 << i, 1), JOE_KUO_DIM1[i]);
        assert_eq!(sobol_raw(1u32 << i, 0), 0x80000000u32 >> i);
    }
}

#[test]
fn morton_interleave_places_y_above_x() {
    assert_eq!(morton_interleave(1, 0), 1);
    assert_eq!(morton_interleave(0, 1), 2);
    assert_eq!(morton_interleave(0x80000000, 0), 1u64 << 62);
    assert_eq!(morton_interleave(0, 0x80000000), 1u64 << 63);
    assert_eq!(morton_interleave(u32::MAX, 0), 0x5555_5555_5555_5555);
    assert_eq!(morton_interleave(0, u32::MAX), 0xaaaa_aaaa_aaaa_aaaa);
    assert_eq!(morton_interleave(0x12345678, 0x9abcdef0), 0x838c8fb0b3bcbf40);
}

#[test]
fn sample_size_rejects_zero() {
    assert_eq!(sample_size(0), Err(SamplingError::ZeroSampleSize));
    assert_eq!(sample_size(0).unwrap_err().message(), "n must be >= 1");
    assert_eq!(sample_size(7), Ok(7));
}

#[test]
fn sequence_keys_known_values() {
    let keys = sequence_keys(6, 123.0f64.to_bits());
    assert_eq!(
        keys,
        vec![
            3340432583232874u64,
            5059254356862316,
            8319291540936706,
            1995967719948128,
            7436255734580492,
            34307338083195
        ]
    );
    for k in keys {
        assert!(k < (1u64 << 53));
    }
}

#[test]
fn sequence_keys_are_prefix_stable() {
    let long = sequence_keys(40, 7.5f64.to_bits());
    let short = sequence_keys(13, 7.5f64.to_bits());
    assert_eq!(&long[..13], &short[..]);
}

#[test]
fn first_four_to_the_k_points_fill_every_depth_k_cell() {
    for seed in [0.0f64, 123.0, 7.5] {
        for k in 1..=5u32 {
            let n = 1usize << (2 * k);
            let keys = sequence_keys(n, seed.to_bits());
            let mut seen = vec![false; n];
            for key in keys {
                let cell = (key >> (53 - 2 * k)) as usize;
                assert!(!seen[cell]);
                seen[cell] = true;
            }
        }
    }
}

#[test]
fn grts_order_is_a_stable_sort() {
    let keys = vec![5u64, 3, 5, 1, 3];
    let order = grts_order(&keys);
    assert_eq!(order, vec![3, 1, 4, 0, 2]);
    let ranks = ranks_from_order(&order);
    assert_eq!(ranks, vec![3, 1, 4, 0, 2]);
    for (rank, id) in order.iter().enumerate() {
        assert_eq!(ranks[*id], rank);
    }
}

#[test]
fn grts_order_of_empty_keys() {
    let order = grts_order(&Vec::new());
    assert!(order.is_empty());
    assert!(ranks_from_order(&order).is_empty());
}

#[test]
fn quadrant_splits_partition_by_threshold() {
    let keys = [1u64, 2, 4, 4, 7, 9, 12];
    assert_eq!(quadrant_splits(&keys, 4, 8, 10), (2, 5, 6));
    assert_eq!(quadrant_splits(&keys, 0, 0, 0), (0, 0, 0));
    assert_eq!(quadrant_splits(&keys, 100, 100, 100), (7, 7, 7));
    assert_eq!(quadrant_splits(&[], 1, 2, 3), (0, 0, 0));
}

#[test]
fn clip_plan_keeps_inside_ring() {
    let plan = clip_plan(&vec![true, true, true]);
    assert_eq!(plan, vec![ClipStep::Keep(0), ClipStep::Keep(1), ClipStep::Keep(2)]);
    assert!(clip_plan(&vec![false, false, false, false]).is_empty());
    assert!(clip_plan(&Vec::new()).is_empty());
}

#[test]
fn clip_plan_emits_crossings() {
    // Vertex 1 is outside: the edges 0->1 and 1->2 cross the line.
    let plan = clip_plan(&vec![true, false, true, true]);
    assert_eq!(
        plan,
        vec![
            ClipStep::Keep(0),
            ClipStep::Crossing { from: 0, to: 1 },
            ClipStep::Crossing { from: 1, to: 2 },
            ClipStep::Keep(2),
            ClipStep::Keep(3),
        ]
    );
    // The first vertex is outside: its incoming edge starts at the last one.
    let plan = clip_plan(&vec![false, true, true]);
    assert_eq!(
        plan,
        vec![
            ClipStep::Crossing { from: 2, to: 0 },
            ClipStep::Crossing { from: 0, to: 1 },
            ClipStep::Keep(1),
            ClipStep::Keep(2),
        ]
    );
}

fn poly(holes: usize) -> PolygonRef {
    PolygonRef { holes }
}

#[test]
fn rings_of_a_polygon_with_holes() {
    let rings = extract_signed_rings(&Shape::Polygon(poly(2))).unwrap();
    assert_eq!(
        rings,
        vec![
            RingRef { polygon: 0, ring: 0, exterior: true },
            RingRef { polygon: 0, ring: 1, exterior: false },
            RingRef { polygon: 0, ring: 2, exterior: false },
        ]
    );
    assert_eq!(rings[0].sign(), 1);
    assert_eq!(rings[1].sign(), -1);
}

#[test]
fn rings_of_nested_collections() {
    let shape = Shape::Collection(vec![
        Shape::MultiPolygon(vec![poly(0), poly(1)]),
        Shape::Collection(vec![Shape::Polygon(poly(0))]),
    ]);
    let rings = extract_signed_rings(&shape).unwrap();
    assert_eq!(
        rings,
        vec![
            RingRef { polygon: 0, ring: 0, exterior: true },
            RingRef { polygon: 1, ring: 0, exterior: true },
            RingRef { polygon: 1, ring: 1, exterior: false },
            RingRef { polygon: 2, ring: 0, exterior: true },
        ]
    );
}

#[test]
fn non_polygonal_parts_are_rejected() {
    assert_eq!(extract_signed_rings(&Shape::Unsupported), Err(SamplingError::NotPolygonal));
    let shape = Shape::Collection(vec![
        Shape::Polygon(poly(0)),
        Shape::Collection(vec![Shape::Unsupported]),
    ]);
    let err = extract_signed_rings(&shape).unwrap_err();
    assert_eq!(err, SamplingError::NotPolygonal);
    assert_eq!(err.message(), "Must be a POLYGON or MULTIPOLYGON");
}

#[test]
fn polygon_parts_skip_other_geometries() {
    let shape = Shape::Collection(vec![
        Shape::Unsupported,
        Shape::MultiPolygon(vec![poly(1), poly(0)]),
        Shape::Collection(vec![Shape::Polygon(poly(3)), Shape::Unsupported]),
    ]);
    assert_eq!(polygon_parts(&shape), vec![poly(1), poly(0), poly(3)]);
    assert!(polygon_parts(&Shape::Unsupported).is_empty());
}

// WKB encoding (little endian) of the test geometries.
fn wkb_header(kind: u32) -> Vec<u8> {
    let mut b = vec![1u8];
    b.extend_from_slice(&kind.to_le_bytes());
    b
}

fn wkb_ring(out: &mut Vec<u8>, pts: &[(f64, f64)]) {
    out.extend_from_slice(&(pts.len() as u32).to_le_bytes());
    for (x, y) in pts {
        out.extend_from_slice(&x.to_le_bytes());
        out.extend_from_slice(&y.to_le_bytes());
    }
}

fn wkb_polygon(rings: &[&[(f64, f64)]]) -> Vec<u8> {
    let mut b = wkb_header(3);
    b.extend_from_slice(&(rings.len() as u32).to_le_bytes());
    for r in rings {
        wkb_ring(&mut b, r);
    }
    b
}

fn wkb_point(x: f64, y: f64) -> Vec<u8> {
    let mut b = wkb_header(1);
    b.extend_from_slice(&x.to_le_bytes());
    b.extend_from_slice(&y.to_le_bytes());
    b
}

fn wkb_collection(kind: u32, members: &[Vec<u8>]) -> Vec<u8> {
    let mut b = wkb_header(kind);
    b.extend_from_slice(&(members.len() as u32).to_le_bytes());
    for m in members {
        b.extend_from_slice(m);
    }
    b
}

const SQUARE: [(f64, f64); 5] = [(0.0, 0.0), (10.0, 0.0), (10.0, 10.0), (0.0, 10.0), (0.0, 0.0)];
const HOLE: [(f64, f64); 5] = [(2.0, 2.0), (4.0, 2.0), (4.0, 4.0), (2.0, 4.0), (2.0, 2.0)];

#[test]
fn wkb_polygon_frame_rings() {
    let bytes = wkb_polygon(&[&SQUARE, &HOLE]);
    assert_eq!(frame_polygons(&bytes), Ok(vec![poly(1)]));
    assert_eq!(
        frame_rings(&bytes),
        Ok(vec![
            RingRef { polygon: 0, ring: 0, exterior: true },
            RingRef { polygon: 0, ring: 1, exterior: false },
        ])
    );
}

#[test]
fn wkb_collection_numbers_polygons_in_document_order() {
    let multi = wkb_collection(6, &[wkb_polygon(&[&SQUARE]), wkb_polygon(&[&SQUARE, &HOLE])]);
    let bytes = wkb_collection(7, &[multi, wkb_polygon(&[&SQUARE])]);
    assert_eq!(frame_polygons(&bytes), Ok(vec![poly(0), poly(1), poly(0)]));
    let rings = frame_rings(&bytes).unwrap();
    assert_eq!(
        rings,
        vec![
            RingRef { polygon: 0, ring: 0, exterior: true },
            RingRef { polygon: 1, ring: 0, exterior: true },
            RingRef { polygon: 1, ring: 1, exterior: false },
            RingRef { polygon: 2, ring: 0, exterior: true },
        ]
    );
}

#[test]
fn wkb_point_is_not_polygonal() {
    let bytes = wkb_point(1.0, 2.0);
    assert_eq!(frame_rings(&bytes), Err(SamplingError::NotPolygonal));
    assert_eq!(frame_polygons(&bytes), Ok(vec![]));
    let mixed = wkb_collection(7, &[wkb_polygon(&[&SQUARE]), wkb_point(1.0, 2.0)]);
    assert_eq!(frame_rings(&mixed), Err(SamplingError::NotPolygonal));
    assert_eq!(frame_polygons(&mixed), Ok(vec![poly(0)]));
}

#[test]
fn wkb_garbage_is_unreadable() {
    assert_eq!(frame_rings(&[1u8, 2, 3]), Err(SamplingError::WkbParseFailed));
    assert_eq!(frame_polygons(&[]), Err(SamplingError::WkbParseFailed));
    assert_eq!(decode_wkb_frame(&[0xffu8]), WkbFrame::Unreadable);
    assert_eq!(SamplingError::WkbParseFailed.message(), "WKB parse failed");
}

#[test]
fn wkb_empty_point_has_no_geometry() {
    let bytes = wkb_point(f64::NAN, f64::NAN);
    assert_eq!(decode_wkb_frame(&bytes), WkbFrame::EmptyPoint);
    assert_eq!(frame_rings(&bytes), Err(SamplingError::EmptyPoint));
}

#[test]
fn wkb_frame_structure() {
    let bytes = wkb_collection(7, &[wkb_point(0.0, 0.0), wkb_polygon(&[&SQUARE, &HOLE, &HOLE])]);
    assert_eq!(
        decode_wkb_frame(&bytes),
        WkbFrame::Frame(Shape::Collection(vec![Shape::Unsupported, Shape::Polygon(poly(2))]))
    );
}

#[test]
fn lk_hash_low_bits_depend_on_low_bits_only() {
    let seed = 0x9e3779b9;
    for k in [1u32, 5, 13, 31] {
        let mask = (1u32 << k) - 1;
        let x = 0x1234_5678u32;
        let y = (x & mask) | (0xdead_beefu32 & !mask);
        assert_eq!(lk_hash(x, seed) & mask, lk_hash(y, seed) & mask);
    }
}

#[test]
fn owen_scramble_is_one_to_one_on_samples() {
    let seed = 0x4c48bcb3;
    let mut outs: Vec<u32> = (0u32..5000).map(|i| owen_scramble(i.wrapping_mul(2654435761), seed)).collect();
    outs.sort();
    outs.dedup();
    assert_eq!(outs.len(), 5000);
}

#[test]
fn sobol_points_are_linear_over_gf2() {
    for (i, j) in [(3u32, 5u32), (1000, 77), (0x1234_5678, 0x0f0f_0f0f)] {
        for d in 0..2 {
            assert_eq!(sobol_raw(i ^ j, d), sobol_raw(i, d) ^ sobol_raw(j, d));
        }
    }
}

#[test]
fn morton_prefix_is_morton_of_prefixes() {
    let (x, y) = (0x9abc_def0u32, 0x1234_5678u32);
    for t in [0u32, 7, 16, 31] {
        assert_eq!(morton_interleave(x, y) >> (2 * t), morton_interleave(x >> t, y >> t));
    }
    assert_ne!(morton_interleave(1, 2), morton_interleave(2, 1));
}

#[test]
fn quadrant_splits_follow_values_on_sorted_keys() {
    let keys = [0u64, 3, 3, 5, 8, 8, 9, 20];
    let (t0, t1, t2) = (3u64, 8, 10);
    let (a, b, c) = quadrant_splits(&keys, t0, t1, t2);
    for (j, k) in keys.iter().enumerate() {
        assert_eq!(j < a, *k < t0);
        assert_eq!(j < b, *k < t1);
        assert_eq!(j < c, *k < t2);
    }
}

#[test]
fn clip_plan_crossings_come_in_pairs() {
    let inside = vec![true, false, false, true, false, true, true];
    let plan = clip_plan(&inside);
    let crossings = plan.iter().filter(|s| matches!(s, ClipStep::Crossing { .. })).count();
    let kept = plan.iter().filter(|s| matches!(s, ClipStep::Keep(_))).count();
    assert_eq!(crossings % 2, 0);
    assert_eq!(crossings, 4);
    assert_eq!(kept, 4);
    assert_eq!(plan.len(), crossings + kept);
}

#[test]
fn grts_ranking_pairs_order_and_ranks() {
    let keys = vec![9u64, 2, 7, 2];
    let (order, ranks) = grts_ranking(&keys);
    assert_eq!(order, vec![1, 3, 2, 0]);
    assert_eq!(ranks, vec![3, 0, 2, 1]);
}

#[test]
fn truncated_sample_keeps_the_visiting_order() {
    let seed = 123.0f64.to_bits();
    let (_, ranks_n) = grts_ranking(&sequence_keys(50, seed));
    let (_, ranks_m) = grts_ranking(&sequence_keys(17, seed));
    for a in 0..17 {
        for b in 0..17 {
            assert_eq!(ranks_m[a] < ranks_m[b], ranks_n[a] < ranks_n[b]);
        }
    }
}

#[test]
fn first_points_form_a_net_for_every_box_shape() {
    for (sx, sy) in [(0u32, 0u32), (0x9e3779b9, 0x5ab6ff64), (12345, 678910)] {
        for m in 1..=10u32 {
            for k in 0..=m {
                let n = 1usize << m;
                let mut seen = vec![false; n];
                for i in 0..n as u32 {
                    let x = owen_scramble(sobol_raw(i, 0), sx) as u64 >> (32 - k);
                    let y = owen_scramble(sobol_raw(i, 1), sy) as u64 >> (32 - (m - k));
                    let cell = ((x << (m - k)) | y) as usize;
                    assert!(!seen[cell]);
                    seen[cell] = true;
                }
            }
        }
    }
}
