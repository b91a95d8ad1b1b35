//! Two-dimensional Sobol sequence: dimension 0 is the Van der Corput
//! sequence, dimension 1 the Joe-Kuo dimension built on the primitive
//! polynomial `x + 1`.

use vstd::prelude::*;
use crate::bits::{reversed32, lemma_u32_xor_shift_facts, lemma_u32_shift_room};

verus! {

/// Direction number `i` of Sobol dimension `dim` (as a left-aligned 32-bit
/// fraction). Dimension 0 has the single bit `2^(31-i)`; dimension 1 follows
/// the recurrence `v_i = v_(i-1) ^ (v_(i-1) >> 1)` from `v_0 = 2^31`.
pub open spec fn direction_number(dim: nat, i: nat) -> u32
    decreases i,
{
    if dim == 0 {
        0x8000_0000u32 >> (i as u32)
    } else if i == 0 {
        0x8000_0000u32
    } else {
        let v = direction_number(dim, (i - 1) as nat);
        v ^ (v >> 1u32)
    }
}

/// XOR of the direction numbers `i, i+1, ...` selected by the bits of `index`
/// (lowest bit first).
pub open spec fn sobol_from(index: u32, dim: nat, i: nat) -> u32
    decreases index,
{
    if index == 0 {
        0
    } else {
        let own = if index % 2 == 1 {
            direction_number(dim, i)
        } else {
            0
        };
        own ^ sobol_from(index / 2, dim, i + 1)
    }
}

/// Coordinate `dim` of Sobol point `index`, unscrambled, as a 32-bit fraction.
pub open spec fn sobol_point(index: u32, dim: nat) -> u32 {
    sobol_from(index, dim, 0)
}

/// Unscrambled Sobol coordinate of point `index` in dimension `dimension`.
pub fn sobol_raw(index: u32, dimension: usize) -> (result: u32)
    requires
        dimension < 2,
    ensures
        result == sobol_point(index, dimension as nat),
{
    let mut index = index;
    let ghost start = index;
    let mut result = 0u32;
    let ghost mut i: u32 = 0;
    // Direction number `i` of this dimension.
    let mut v = 0x8000_0000u32;
    proof {
        lemma_u32_shift_room(index, 0);
        lemma_u32_xor_shift_facts(sobol_point(start, dimension as nat), 0, 0);
        lemma_u32_xor_shift_facts(0x8000_0000u32, 0, 0);
    }
    while index > 0
        invariant
            dimension < 2,
            i <= 32,
            ((index as u64) << (i as u64)) < 0x1_0000_0000u64,
            index > 0 ==> v == direction_number(dimension as nat, i as nat),
            result ^ sobol_from(index, dimension as nat, i as nat) == sobol_point(
                start,
                dimension as nat,
            ),
        decreases index,
    {
        let ghost rest = sobol_from(index / 2, dimension as nat, (i + 1) as nat);
        proof {
            lemma_u32_shift_room(index, i);
            lemma_u32_xor_shift_facts(index, 0, 0);
            lemma_u32_xor_shift_facts(result, v, rest);
            lemma_u32_xor_shift_facts(rest, 0, 0);
        }
        if index & 1 != 0 {
            result ^= v;
        }
        index >>= 1;
        v = if dimension == 0 {
            v >> 1
        } else {
            v ^ (v >> 1)
        };
        proof {
            i = (i + 1) as u32;
        }
    }
    proof {
        lemma_u32_xor_shift_facts(result, 0, 0);
    }
    result
}

/// The recurrence reproduces the published Joe-Kuo direction numbers of the
/// second Sobol dimension.
pub proof fn lemma_direction_numbers_dim1()
    ensures
        direction_number(1, 0) == 0x80000000,
        direction_number(1, 1) == 0xc0000000,
        direction_number(1, 2) == 0xa0000000,
        direction_number(1, 3) == 0xf0000000,
        direction_number(1, 4) == 0x88000000,
        direction_number(1, 5) == 0xcc000000,
        direction_number(1, 6) == 0xaa000000,
        direction_number(1, 7) == 0xff000000,
        direction_number(1, 8) == 0x80800000,
        direction_number(1, 9) == 0xc0c00000,
        direction_number(1, 10) == 0xa0a00000,
        direction_number(1, 11) == 0xf0f00000,
        direction_number(1, 12) == 0x88880000,
        direction_number(1, 13) == 0xcccc0000,
        direction_number(1, 14) == 0xaaaa0000,
        direction_number(1, 15) == 0xffff0000,
        direction_number(1, 16) == 0x80008000,
        direction_number(1, 17) == 0xc000c000,
        direction_number(1, 18) == 0xa000a000,
        direction_number(1, 19) == 0xf000f000,
        direction_number(1, 20) == 0x88008800,
        direction_number(1, 21) == 0xcc00cc00,
        direction_number(1, 22) == 0xaa00aa00,
        direction_number(1, 23) == 0xff00ff00,
        direction_number(1, 24) == 0x80808080,
        direction_number(1, 25) == 0xc0c0c0c0,
        direction_number(1, 26) == 0xa0a0a0a0,
        direction_number(1, 27) == 0xf0f0f0f0,
        direction_number(1, 28) == 0x88888888,
        direction_number(1, 29) == 0xcccccccc,
        direction_number(1, 30) == 0xaaaaaaaa,
        direction_number(1, 31) == 0xffffffff,
{
    assert(
        0x80000000u32 ^ (0x80000000u32 >> 1u32) == 0xc0000000u32 &&
        0xc0000000u32 ^ (0xc0000000u32 >> 1u32) == 0xa0000000u32 &&
        0xa0000000u32 ^ (0xa0000000u32 >> 1u32) == 0xf0000000u32 &&
        0xf0000000u32 ^ (0xf0000000u32 >> 1u32) == 0x88000000u32 &&
        0x88000000u32 ^ (0x88000000u32 >> 1u32) == 0xcc000000u32 &&
        0xcc000000u32 ^ (0xcc000000u32 >> 1u32) == 0xaa000000u32 &&
        0xaa000000u32 ^ (0xaa000000u32 >> 1u32) == 0xff000000u32 &&
        0xff000000u32 ^ (0xff000000u32 >> 1u32) == 0x80800000u32 &&
        0x80800000u32 ^ (0x80800000u32 >> 1u32) == 0xc0c00000u32 &&
        0xc0c00000u32 ^ (0xc0c00000u32 >> 1u32) == 0xa0a00000u32 &&
        0xa0a00000u32 ^ (0xa0a00000u32 >> 1u32) == 0xf0f00000u32 &&
        0xf0f00000u32 ^ (0xf0f00000u32 >> 1u32) == 0x88880000u32 &&
        0x88880000u32 ^ (0x88880000u32 >> 1u32) == 0xcccc0000u32 &&
        0xcccc0000u32 ^ (0xcccc0000u32 >> 1u32) == 0xaaaa0000u32 &&
        0xaaaa0000u32 ^ (0xaaaa0000u32 >> 1u32) == 0xffff0000u32 &&
        0xffff0000u32 ^ (0xffff0000u32 >> 1u32) == 0x80008000u32 &&
        0x80008000u32 ^ (0x80008000u32 >> 1u32) == 0xc000c000u32 &&
        0xc000c000u32 ^ (0xc000c000u32 >> 1u32) == 0xa000a000u32 &&
        0xa000a000u32 ^ (0xa000a000u32 >> 1u32) == 0xf000f000u32 &&
        0xf000f000u32 ^ (0xf000f000u32 >> 1u32) == 0x88008800u32 &&
        0x88008800u32 ^ (0x88008800u32 >> 1u32) == 0xcc00cc00u32 &&
        0xcc00cc00u32 ^ (0xcc00cc00u32 >> 1u32) == 0xaa00aa00u32 &&
        0xaa00aa00u32 ^ (0xaa00aa00u32 >> 1u32) == 0xff00ff00u32 &&
        0xff00ff00u32 ^ (0xff00ff00u32 >> 1u32) == 0x80808080u32 &&
        0x80808080u32 ^ (0x80808080u32 >> 1u32) == 0xc0c0c0c0u32 &&
        0xc0c0c0c0u32 ^ (0xc0c0c0c0u32 >> 1u32) == 0xa0a0a0a0u32 &&
        0xa0a0a0a0u32 ^ (0xa0a0a0a0u32 >> 1u32) == 0xf0f0f0f0u32 &&
        0xf0f0f0f0u32 ^ (0xf0f0f0f0u32 >> 1u32) == 0x88888888u32 &&
        0x88888888u32 ^ (0x88888888u32 >> 1u32) == 0xccccccccu32 &&
        0xccccccccu32 ^ (0xccccccccu32 >> 1u32) == 0xaaaaaaaau32 &&
        0xaaaaaaaau32 ^ (0xaaaaaaaau32 >> 1u32) == 0xffffffffu32
    ) by (bit_vector);
    assert(direction_number(1, 0) == 0x80000000u32);
    assert(direction_number(1, 1) == 0xc0000000u32);
    assert(direction_number(1, 2) == 0xa0000000u32);
    assert(direction_number(1, 3) == 0xf0000000u32);
    assert(direction_number(1, 4) == 0x88000000u32);
    assert(direction_number(1, 5) == 0xcc000000u32);
    assert(direction_number(1, 6) == 0xaa000000u32);
    assert(direction_number(1, 7) == 0xff000000u32);
    assert(direction_number(1, 8) == 0x80800000u32);
    assert(direction_number(1, 9) == 0xc0c00000u32);
    assert(direction_number(1, 10) == 0xa0a00000u32);
    assert(direction_number(1, 11) == 0xf0f00000u32);
    assert(direction_number(1, 12) == 0x88880000u32);
    assert(direction_number(1, 13) == 0xcccc0000u32);
    assert(direction_number(1, 14) == 0xaaaa0000u32);
    assert(direction_number(1, 15) == 0xffff0000u32);
    assert(direction_number(1, 16) == 0x80008000u32);
    assert(direction_number(1, 17) == 0xc000c000u32);
    assert(direction_number(1, 18) == 0xa000a000u32);
    assert(direction_number(1, 19) == 0xf000f000u32);
    assert(direction_number(1, 20) == 0x88008800u32);
    assert(direction_number(1, 21) == 0xcc00cc00u32);
    assert(direction_number(1, 22) == 0xaa00aa00u32);
    assert(direction_number(1, 23) == 0xff00ff00u32);
    assert(direction_number(1, 24) == 0x80808080u32);
    assert(direction_number(1, 25) == 0xc0c0c0c0u32);
    assert(direction_number(1, 26) == 0xa0a0a0a0u32);
    assert(direction_number(1, 27) == 0xf0f0f0f0u32);
    assert(direction_number(1, 28) == 0x88888888u32);
    assert(direction_number(1, 29) == 0xccccccccu32);
    assert(direction_number(1, 30) == 0xaaaaaaaau32);
    assert(direction_number(1, 31) == 0xffffffffu32);
}

/// How the reversal of `idx` splits into its top bit and the reversal of
/// `idx / 2`, seen through a right shift by `i`.
proof fn lemma_reversed32_shift_split(idx: u32, i: u32)
    by (bit_vector)
    requires
        i < 32,
    ensures
        reversed32(0u32) >> i == 0u32,
        i < 31 ==> reversed32(idx) >> i == (if idx % 2 == 1 {
            0x8000_0000u32 >> i
        } else {
            0u32
        }) ^ (reversed32(idx / 2) >> ((i + 1) as u32)),
        i == 31 && idx / 2 == 0 ==> reversed32(idx) >> i == (if idx % 2 == 1 {
            0x8000_0000u32 >> i
        } else {
            0u32
        }),
{
}

proof fn lemma_van_der_corput_from(idx: u32, i: u32)
    requires
        i < 32,
        ((idx as u64) << (i as u64)) < 0x1_0000_0000u64,
    ensures
        sobol_from(idx, 0, i as nat) == reversed32(idx) >> i,
    decreases idx,
{
    lemma_reversed32_shift_split(idx, i);
    lemma_u32_shift_room(idx, i);
    if idx != 0 {
        let h = idx / 2;
        let own: u32 = if idx % 2 == 1 {
            0x8000_0000u32 >> i
        } else {
            0u32
        };
        assert(direction_number(0, i as nat) == 0x8000_0000u32 >> i);
        assert(sobol_from(idx, 0, i as nat) == own ^ sobol_from(h, 0, (i + 1) as nat));
        if i + 1 < 32 {
            lemma_van_der_corput_from(h, (i + 1) as u32);
        } else {
            lemma_u32_xor_shift_facts(own, 0, 0);
        }
    }
}

/// Dimension 0 is the Van der Corput sequence: its coordinate is the bit
/// reversal of the point index.
pub proof fn lemma_sobol_dim0_is_van_der_corput(index: u32)
    ensures
        sobol_point(index, 0) == reversed32(index),
{
    lemma_u32_shift_room(index, 0);
    lemma_van_der_corput_from(index, 0);
    lemma_u32_xor_shift_facts(reversed32(index), 0, 0);
}

/// XOR of the direction numbers `l, l+1, ..., 31` selected by bits `l..31`
/// of `x`: the Sobol coordinate as a sum over the bits of the index.
pub open spec fn sobol_terms(x: u32, dim: nat, l: nat) -> u32
    decreases 32 - l,
{
    if l >= 32 {
        0
    } else {
        (if (x >> (l as u32)) & 1u32 == 1u32 {
            direction_number(dim, l)
        } else {
            0u32
        }) ^ sobol_terms(x, dim, l + 1)
    }
}

proof fn lemma_index_bit_facts(x: u32, i: u32)
    by (bit_vector)
    requires
        i < 32,
    ensures
        x >> 0u32 == x,
        i < 31 ==> (x >> i) / 2 == x >> ((i + 1) as u32),
        i == 31 ==> (x >> i) / 2 == 0u32,
        ((x >> i) % 2 == 1) == ((x >> i) & 1u32 == 1u32),
        x >> i == 0u32 ==> (x >> i) & 1u32 == 0u32,
        x >> i == 0u32 && i < 31 ==> x >> ((i + 1) as u32) == 0u32,
{
}

proof fn lemma_sobol_terms_zero(x: u32, dim: nat, i: u32)
    requires
        i < 32,
        x >> i == 0u32,
    ensures
        sobol_terms(x, dim, i as nat) == 0u32,
    decreases 32 - i,
{
    lemma_index_bit_facts(x, i);
    lemma_u32_xor_shift_facts(0u32, 0u32, 0u32);
    if i < 31 {
        lemma_sobol_terms_zero(x, dim, (i + 1) as u32);
    }
    assert(sobol_terms(x, dim, (i + 1) as nat) == 0u32);
}

proof fn lemma_sobol_from_terms(x: u32, dim: nat, i: u32)
    requires
        i < 32,
    ensures
        sobol_from(x >> i, dim, i as nat) == sobol_terms(x, dim, i as nat),
    decreases 32 - i,
{
    lemma_index_bit_facts(x, i);
    let y = x >> i;
    if y == 0 {
        lemma_sobol_terms_zero(x, dim, i);
    } else {
        let own: u32 = if (x >> i) & 1u32 == 1u32 {
            direction_number(dim, i as nat)
        } else {
            0u32
        };
        assert(sobol_from(y, dim, i as nat) == own ^ sobol_from(y / 2, dim, (i + 1) as nat));
        assert(sobol_terms(x, dim, i as nat) == own ^ sobol_terms(x, dim, (i + 1) as nat));
        if i < 31 {
            lemma_sobol_from_terms(x, dim, (i + 1) as u32);
            assert(y / 2 == x >> ((i + 1) as u32));
        } else {
            assert(sobol_terms(x, dim, 32) == 0u32);
            assert(y / 2 == 0u32);
            assert(sobol_from(0u32, dim, 32) == 0u32);
        }
    }
}

/// The Sobol coordinate is the XOR of the direction numbers selected by the
/// bits of the index.
pub proof fn lemma_sobol_point_terms(x: u32, dim: nat)
    ensures
        sobol_point(x, dim) == sobol_terms(x, dim, 0),
{
    lemma_index_bit_facts(x, 0);
    lemma_sobol_from_terms(x, dim, 0);
}

proof fn lemma_selected_xor(i: u32, j: u32, l: u32, c: u32, a: u32, b: u32, d: u32, e: u32)
    by (bit_vector)
    requires
        l < 32,
    ensures
        (if ((i ^ j) >> l) & 1u32 == 1u32 {
            c
        } else {
            0u32
        }) == (if (i >> l) & 1u32 == 1u32 {
            c
        } else {
            0u32
        }) ^ (if (j >> l) & 1u32 == 1u32 {
            c
        } else {
            0u32
        }),
        (a ^ b) ^ (d ^ e) == (a ^ d) ^ (b ^ e),
{
}

proof fn lemma_sobol_terms_linear(i: u32, j: u32, dim: nat, l: nat)
    requires
        l <= 32,
    ensures
        sobol_terms(i ^ j, dim, l) == sobol_terms(i, dim, l) ^ sobol_terms(j, dim, l),
    decreases 32 - l,
{
    if l < 32 {
        lemma_sobol_terms_linear(i, j, dim, l + 1);
        let c = direction_number(dim, l);
        let oi: u32 = if (i >> (l as u32)) & 1u32 == 1u32 {
            c
        } else {
            0u32
        };
        let oj: u32 = if (j >> (l as u32)) & 1u32 == 1u32 {
            c
        } else {
            0u32
        };
        lemma_selected_xor(
            i,
            j,
            l as u32,
            c,
            oi,
            oj,
            sobol_terms(i, dim, l + 1),
            sobol_terms(j, dim, l + 1),
        );
    } else {
        lemma_u32_xor_shift_facts(0u32, 0u32, 0u32);
    }
}

/// Sobol points are linear over GF(2): the point of `i ^ j` is the XOR of
/// the points of `i` and `j`, in every dimension.
pub proof fn lemma_sobol_point_linear(i: u32, j: u32, dim: nat)
    ensures
        sobol_point(i ^ j, dim) == sobol_point(i, dim) ^ sobol_point(j, dim),
{
    lemma_sobol_point_terms(i, dim);
    lemma_sobol_point_terms(j, dim);
    lemma_sobol_point_terms(i ^ j, dim);
    lemma_sobol_terms_linear(i, j, dim, 0);
}

} // verus!
