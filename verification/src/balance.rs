//! Spatial balance of the sample: the first `4^k` points fall in distinct
//! quadtree cells of depth `k`.

use vstd::prelude::*;
use crate::bits::reversed32;
use vstd::set_lib::{set_int_range, lemma_int_range, lemma_map_size, lemma_subset_equality};
use crate::hash::{owen_scramble_spec, lemma_owen_scramble_intervals};
use crate::sampler::{
    scrambled_code, scrambled_code_with, point_key, lemma_cell_matches_intervals,
};
use crate::sobol::{
    sobol_point, sobol_terms, lemma_direction_numbers_dim1, lemma_sobol_dim0_is_van_der_corput,
    lemma_sobol_point_linear, lemma_sobol_point_terms,
};

verus! {

/// Sobol dimension 1 written out over the bits of the index, with the
/// direction numbers as constants.
pub open spec fn sobol1_expanded(x: u32) -> u32 {
    (if (x >> 0u32) & 1u32 == 1u32 {
        0x80000000u32
    } else {
        0u32
    }) ^ ((if (x >> 1u32) & 1u32 == 1u32 {
        0xc0000000u32
    } else {
        0u32
    }) ^ ((if (x >> 2u32) & 1u32 == 1u32 {
        0xa0000000u32
    } else {
        0u32
    }) ^ ((if (x >> 3u32) & 1u32 == 1u32 {
        0xf0000000u32
    } else {
        0u32
    }) ^ ((if (x >> 4u32) & 1u32 == 1u32 {
        0x88000000u32
    } else {
        0u32
    }) ^ ((if (x >> 5u32) & 1u32 == 1u32 {
        0xcc000000u32
    } else {
        0u32
    }) ^ ((if (x >> 6u32) & 1u32 == 1u32 {
        0xaa000000u32
    } else {
        0u32
    }) ^ ((if (x >> 7u32) & 1u32 == 1u32 {
        0xff000000u32
    } else {
        0u32
    }) ^ ((if (x >> 8u32) & 1u32 == 1u32 {
        0x80800000u32
    } else {
        0u32
    }) ^ ((if (x >> 9u32) & 1u32 == 1u32 {
        0xc0c00000u32
    } else {
        0u32
    }) ^ ((if (x >> 10u32) & 1u32 == 1u32 {
        0xa0a00000u32
    } else {
        0u32
    }) ^ ((if (x >> 11u32) & 1u32 == 1u32 {
        0xf0f00000u32
    } else {
        0u32
    }) ^ ((if (x >> 12u32) & 1u32 == 1u32 {
        0x88880000u32
    } else {
        0u32
    }) ^ ((if (x >> 13u32) & 1u32 == 1u32 {
        0xcccc0000u32
    } else {
        0u32
    }) ^ ((if (x >> 14u32) & 1u32 == 1u32 {
        0xaaaa0000u32
    } else {
        0u32
    }) ^ ((if (x >> 15u32) & 1u32 == 1u32 {
        0xffff0000u32
    } else {
        0u32
    }) ^ ((if (x >> 16u32) & 1u32 == 1u32 {
        0x80008000u32
    } else {
        0u32
    }) ^ ((if (x >> 17u32) & 1u32 == 1u32 {
        0xc000c000u32
    } else {
        0u32
    }) ^ ((if (x >> 18u32) & 1u32 == 1u32 {
        0xa000a000u32
    } else {
        0u32
    }) ^ ((if (x >> 19u32) & 1u32 == 1u32 {
        0xf000f000u32
    } else {
        0u32
    }) ^ ((if (x >> 20u32) & 1u32 == 1u32 {
        0x88008800u32
    } else {
        0u32
    }) ^ ((if (x >> 21u32) & 1u32 == 1u32 {
        0xcc00cc00u32
    } else {
        0u32
    }) ^ ((if (x >> 22u32) & 1u32 == 1u32 {
        0xaa00aa00u32
    } else {
        0u32
    }) ^ ((if (x >> 23u32) & 1u32 == 1u32 {
        0xff00ff00u32
    } else {
        0u32
    }) ^ ((if (x >> 24u32) & 1u32 == 1u32 {
        0x80808080u32
    } else {
        0u32
    }) ^ ((if (x >> 25u32) & 1u32 == 1u32 {
        0xc0c0c0c0u32
    } else {
        0u32
    }) ^ ((if (x >> 26u32) & 1u32 == 1u32 {
        0xa0a0a0a0u32
    } else {
        0u32
    }) ^ ((if (x >> 27u32) & 1u32 == 1u32 {
        0xf0f0f0f0u32
    } else {
        0u32
    }) ^ ((if (x >> 28u32) & 1u32 == 1u32 {
        0x88888888u32
    } else {
        0u32
    }) ^ ((if (x >> 29u32) & 1u32 == 1u32 {
        0xccccccccu32
    } else {
        0u32
    }) ^ ((if (x >> 30u32) & 1u32 == 1u32 {
        0xaaaaaaaau32
    } else {
        0u32
    }) ^ ((if (x >> 31u32) & 1u32 == 1u32 {
        0xffffffffu32
    } else {
        0u32
    }) ^ (0u32))))))))))))))))))))))))))))))))
}

/// The cell signature of the first `4^k` unscrambled points is one-to-one:
/// a non-zero index difference below `4^k` moves the top `k` bits of one of
/// the two coordinates.
pub proof fn lemma_net_difference(x: u32, k: u32)
    by (bit_vector)
    requires
        1 <= k <= 16,
        x != 0,
        (x as u64) < (1u64 << ((2 * k) as u64)),
    ensures
        !(reversed32(x) >> ((32 - k) as u32) == 0u32 && sobol1_expanded(x) >> ((32 - k) as u32)
            == 0u32),
{
}

/// The elementary boxes of the first `2^m` unscrambled points are distinct:
/// a non-zero index difference below `2^m` moves the top `k` bits of the
/// first coordinate or the top `m - k` bits of the second.
pub proof fn lemma_net_box_difference(x: u32, k: u32, m: u32)
    by (bit_vector)
    requires
        k <= m <= 32,
        x != 0,
        (x as u64) < (1u64 << (m as u64)),
    ensures
        !((reversed32(x) as u64) >> ((32 - k) as u64) == 0u64 && (sobol1_expanded(x) as u64) >> ((32
            - (m - k)) as u64) == 0u64),
{
}

/// Sobol dimension 1 equals its written-out form.
pub proof fn lemma_sobol1_expanded(x: u32)
    ensures
        sobol_point(x, 1) == sobol1_expanded(x),
{
    lemma_sobol_point_terms(x, 1);
    lemma_direction_numbers_dim1();
    reveal_with_fuel(sobol_terms, 33);
}

proof fn lemma_difference_facts(i: u32, j: u32, k: u32, a: u32, b: u32)
    by (bit_vector)
    requires
        1 <= k <= 16,
        i != j,
        (i as u64) < (1u64 << ((2 * k) as u64)),
        (j as u64) < (1u64 << ((2 * k) as u64)),
    ensures
        i ^ j != 0u32,
        ((i ^ j) as u64) < (1u64 << ((2 * k) as u64)),
        (a >> ((32 - k) as u32) == b >> ((32 - k) as u32)) == ((a ^ b) >> ((32 - k) as u32)
            == 0u32),
{
}

proof fn lemma_key_prefix(c: u64, k: u32)
    by (bit_vector)
    requires
        1 <= k <= 16,
    ensures
        (c >> 11u64) >> ((53 - 2 * k) as u64) == c >> ((2 * (32 - k)) as u64),
        c >> ((2 * (32 - k)) as u64) < (1u64 << ((2 * k) as u64)),
{
}

/// The quadtree cell at depth `k` of scrambled point `i`, under the seeds
/// `sx` and `sy`: the top `2k` bits of its Morton code.
pub open spec fn cell_of(i: u32, sx: u32, sy: u32, k: u32) -> u64 {
    scrambled_code_with(i, sx, sy) >> ((2 * (32 - k)) as u64)
}

/// Spatial balance: for every depth `k <= 16` and all scrambling seeds, the
/// first `4^k` points of the scrambled sequence lie in distinct quadtree
/// cells of depth `k`.
pub proof fn lemma_first_points_in_distinct_cells_with(i: u32, j: u32, sx: u32, sy: u32, k: u32)
    requires
        1 <= k <= 16,
        i != j,
        (i as u64) < (1u64 << ((2 * k) as u64)),
        (j as u64) < (1u64 << ((2 * k) as u64)),
    ensures
        cell_of(i, sx, sy, k) != cell_of(j, sx, sy, k),
{
    let t = (32 - k) as u32;
    lemma_cell_matches_intervals(i, j, sx, sy, t);
    lemma_sobol_point_linear(i, j, 0);
    lemma_sobol_point_linear(i, j, 1);
    lemma_sobol_dim0_is_van_der_corput(i ^ j);
    lemma_sobol1_expanded(i ^ j);
    lemma_difference_facts(i, j, k, sobol_point(i, 0), sobol_point(j, 0));
    lemma_difference_facts(i, j, k, sobol_point(i, 1), sobol_point(j, 1));
    lemma_net_difference(i ^ j, k);
}

/// Spatial balance: for every depth `k <= 16`, the first `4^k` points of the
/// sample lie in distinct quadtree cells of depth `k` (one point per cell),
/// whatever the seed. Equivalently, their keys fall in distinct intervals
/// of length `4^-k` of the unit interval.
pub proof fn lemma_first_points_in_distinct_cells(i: u32, j: u32, seed: u32, k: u32)
    requires
        1 <= k <= 16,
        i != j,
        (i as u64) < (1u64 << ((2 * k) as u64)),
        (j as u64) < (1u64 << ((2 * k) as u64)),
    ensures
        scrambled_code(i, seed) >> ((2 * (32 - k)) as u64) != scrambled_code(j, seed) >> ((2 * (32
            - k)) as u64),
        point_key(i, seed) >> ((53 - 2 * k) as u64) != point_key(j, seed) >> ((53 - 2 * k) as u64),
{
    lemma_first_points_in_distinct_cells_with(
        i,
        j,
        crate::hash::dim_seed_spec(seed, 0),
        crate::hash::dim_seed_spec(seed, 1),
        k,
    );
    lemma_key_prefix(scrambled_code(i, seed), k);
    lemma_key_prefix(scrambled_code(j, seed), k);
}

/// Every cell once: for every depth `k <= 16` and all scrambling seeds, the
/// cells of the first `4^k` points are exactly the `4^k` cells of depth `k`.
pub proof fn lemma_first_points_cover_cells(sx: u32, sy: u32, k: u32)
    requires
        1 <= k <= 16,
    ensures
        set_int_range(0, (1u64 << ((2 * k) as u64)) as int).map(
            |i: int| cell_of(i as u32, sx, sy, k) as int,
        ) == set_int_range(0, (1u64 << ((2 * k) as u64)) as int),
{
    let n = (1u64 << ((2 * k) as u64)) as int;
    assert(n <= 0x1_0000_0000) by {
        lemma_cells_count(k);
    }
    let x = set_int_range(0, n);
    let f = |i: int| cell_of(i as u32, sx, sy, k) as int;
    let y = x.map(f);
    lemma_int_range(0, n);
    assert forall|a: int, b: int| x.contains(a) && x.contains(b) && #[trigger] f(a) == #[trigger] f(
        b,
    ) implies a == b by {
        if a != b {
            lemma_first_points_in_distinct_cells_with(a as u32, b as u32, sx, sy, k);
        }
    }
    lemma_map_size(x, y, f);
    assert(y.subset_of(x)) by {
        assert forall|c: int| y.contains(c) implies x.contains(c) by {
            let i = choose|i: int| x.contains(i) && f(i) == c;
            lemma_key_prefix(scrambled_code_with(i as u32, sx, sy), k);
        }
    }
    lemma_subset_equality(y, x);
}

proof fn lemma_cells_count(k: u32)
    by (bit_vector)
    requires
        1 <= k <= 16,
    ensures
        (1u64 << ((2 * k) as u64)) <= 0x1_0000_0000u64,
{
}

proof fn lemma_box_facts(i: u32, j: u32, m: u32, a: u32, b: u32, s: u32)
    by (bit_vector)
    requires
        m <= 32,
        s <= 32,
    ensures
        i != j ==> i ^ j != 0u32,
        (i as u64) < (1u64 << (m as u64)) && (j as u64) < (1u64 << (m as u64)) ==> ((i ^ j) as u64)
            < (1u64 << (m as u64)),
        ((a as u64) >> (s as u64) == (b as u64) >> (s as u64)) == (((a ^ b) as u64) >> (s as u64)
            == 0u64),
        s < 32 ==> ((a as u64) >> (s as u64) == (b as u64) >> (s as u64)) == (a >> s == b >> s),
        s == 32 ==> (a as u64) >> (s as u64) == (b as u64) >> (s as u64),
{
}

/// The first `2^m` unscrambled Sobol points form a (0, m, 2)-net: for every
/// split `k + (m - k) = m`, no two of them share an elementary box of width
/// `2^-k` and height `2^-(m-k)` (the top `k` bits of the first coordinate
/// and the top `m - k` bits of the second), so each of the `2^m` boxes holds
/// exactly one point.
pub proof fn lemma_sobol_points_form_net(i: u32, j: u32, k: u32, m: u32)
    requires
        k <= m <= 32,
        i != j,
        (i as u64) < (1u64 << (m as u64)),
        (j as u64) < (1u64 << (m as u64)),
    ensures
        !((sobol_point(i, 0) as u64) >> ((32 - k) as u64) == (sobol_point(j, 0) as u64) >> ((32
            - k) as u64) && (sobol_point(i, 1) as u64) >> ((32 - (m - k)) as u64) == (sobol_point(
            j,
            1,
        ) as u64) >> ((32 - (m - k)) as u64)),
{
    lemma_sobol_point_linear(i, j, 0);
    lemma_sobol_point_linear(i, j, 1);
    lemma_sobol_dim0_is_van_der_corput(i ^ j);
    lemma_sobol1_expanded(i ^ j);
    lemma_box_facts(i, j, m, sobol_point(i, 0), sobol_point(j, 0), (32 - k) as u32);
    lemma_box_facts(i, j, m, sobol_point(i, 1), sobol_point(j, 1), (32 - (m - k)) as u32);
    lemma_net_box_difference(i ^ j, k, m);
}

/// Owen scrambling keeps the elementary boxes: two coordinates share their
/// top `32 - s` bits exactly when their scrambles do (`s <= 32`).
proof fn lemma_owen_scramble_boxes(a: u32, b: u32, seed: u32, s: u32)
    requires
        s <= 32,
    ensures
        ((owen_scramble_spec(a, seed) as u64) >> (s as u64) == (owen_scramble_spec(b, seed) as u64)
            >> (s as u64)) == ((a as u64) >> (s as u64) == (b as u64) >> (s as u64)),
{
    let oa = owen_scramble_spec(a, seed);
    let ob = owen_scramble_spec(b, seed);
    lemma_box_facts(1, 0, 32, a, b, s);
    lemma_box_facts(1, 0, 32, oa, ob, s);
    if s < 32 {
        lemma_owen_scramble_intervals(a, b, seed, s);
    }
}

/// The (0, m, 2)-net property survives scrambling: for all seeds `sx`, `sy`
/// and every split `k + (m - k) = m`, the first `2^m` scrambled points lie in
/// distinct elementary boxes of width `2^-k` and height `2^-(m-k)`.
pub proof fn lemma_scrambled_points_form_net(
    i: u32,
    j: u32,
    sx: u32,
    sy: u32,
    k: u32,
    m: u32,
)
    requires
        k <= m <= 32,
        i != j,
        (i as u64) < (1u64 << (m as u64)),
        (j as u64) < (1u64 << (m as u64)),
    ensures
        !((owen_scramble_spec(sobol_point(i, 0), sx) as u64) >> ((32 - k) as u64) == (
        owen_scramble_spec(sobol_point(j, 0), sx) as u64) >> ((32 - k) as u64) && (
        owen_scramble_spec(sobol_point(i, 1), sy) as u64) >> ((32 - (m - k)) as u64) == (
        owen_scramble_spec(sobol_point(j, 1), sy) as u64) >> ((32 - (m - k)) as u64)),
{
    lemma_sobol_points_form_net(i, j, k, m);
    lemma_owen_scramble_boxes(sobol_point(i, 0), sobol_point(j, 0), sx, (32 - k) as u32);
    lemma_owen_scramble_boxes(sobol_point(i, 1), sobol_point(j, 1), sy, (32 - (m - k)) as u32);
}

} // verus!
