//! Morton (Z-order) codes of two 32-bit coordinates.

use vstd::prelude::*;
use crate::bits::bit32;

verus! {

/// Bit `i` of a 64-bit word.
pub open spec fn bit64(x: u64, i: u64) -> bool {
    (x >> i) & 1u64 == 1u64
}

/// Spreads the 32 bits of `x` over the even bit positions of a 64-bit word.
pub open spec fn spread_even(x: u32) -> u64 {
    let v0 = x as u64;
    let v1 = (v0 | (v0 << 16u64)) & 0x0000_ffff_0000_ffffu64;
    let v2 = (v1 | (v1 << 8u64)) & 0x00ff_00ff_00ff_00ffu64;
    let v3 = (v2 | (v2 << 4u64)) & 0x0f0f_0f0f_0f0f_0f0fu64;
    let v4 = (v3 | (v3 << 2u64)) & 0x3333_3333_3333_3333u64;
    (v4 | (v4 << 1u64)) & 0x5555_5555_5555_5555u64
}

/// The Morton code of `(x, y)`: bit `i` of `x` lands on bit `2i`, bit `i`
/// of `y` on bit `2i + 1`, so each pair of bits names a quadtree quadrant
/// with Y as the high bit and X as the low bit.
pub open spec fn morton_code(x: u32, y: u32) -> u64 {
    spread_even(x) | (spread_even(y) << 1u64)
}

/// Where the bits of the two coordinates land in the Morton code.
pub proof fn lemma_morton_code_bits(x: u32, y: u32, i: u32)
    requires
        i < 32,
    ensures
        bit64(morton_code(x, y), (2 * i) as u64) == bit32(x, i),
        bit64(morton_code(x, y), (2 * i + 1) as u64) == bit32(y, i),
{
    let m = morton_code(x, y);
    assert(((m >> ((2 * i) as u64)) & 1u64 == 1u64) == ((x >> i) & 1u32 == 1u32)) by (bit_vector)
        requires
            i < 32u32,
            m == morton_code(x, y),
    ;
    assert(((m >> ((2 * i + 1) as u64)) & 1u64 == 1u64) == ((y >> i) & 1u32 == 1u32))
        by (bit_vector)
        requires
            i < 32u32,
            m == morton_code(x, y),
    ;
}

/// The top `2k` bits of a Morton code (its quadtree cell at depth `k`) are
/// the Morton code of the top `k` bits of each coordinate; here `t = 32 - k`.
pub proof fn lemma_morton_code_prefix(x: u32, y: u32, t: u32)
    by (bit_vector)
    requires
        t < 32,
    ensures
        morton_code(x, y) >> ((2 * t) as u64) == morton_code(x >> t, y >> t),
{
}

/// Distinct coordinate pairs have distinct Morton codes.
pub proof fn lemma_morton_code_injective(a: u32, b: u32, c: u32, d: u32)
    by (bit_vector)
    ensures
        morton_code(a, b) == morton_code(c, d) ==> a == c && b == d,
{
}

proof fn lemma_interleave_step(x: u32, y: u32, res: u64, i: u64)
    requires
        i < 32,
        res == morton_code(x, y) & !(0xffff_ffff_ffff_ffffu64 >> (2 * i)),
    ensures
        ({
            let shift = (31 - i) as u32;
            let bit_x = ((x >> shift) & 1u32) as u64;
            let bit_y = ((y >> shift) & 1u32) as u64;
            let out_shift = (62 - 2 * i) as u64;
            let next = (res | (bit_x << out_shift)) | (bit_y << ((out_shift + 1) as u64));
            &&& i + 1 < 32 ==> next == morton_code(x, y) & !(0xffff_ffff_ffff_ffffu64 >> (2 * (i
                + 1)))
            &&& i + 1 == 32 ==> next == morton_code(x, y)
        }),
{
    let m = morton_code(x, y);
    let shift = (31 - i) as u32;
    let bit_x = ((x >> shift) & 1u32) as u64;
    let bit_y = ((y >> shift) & 1u32) as u64;
    let out_shift = (62 - 2 * i) as u64;
    let next = (res | (bit_x << out_shift)) | (bit_y << ((out_shift + 1) as u64));
    assert(i + 1 < 32 ==> next == m & !(0xffff_ffff_ffff_ffffu64 >> (2 * (i + 1)))) by (bit_vector)
        requires
            i < 32u64,
            m == morton_code(x, y),
            res == m & !(0xffff_ffff_ffff_ffffu64 >> (2 * i)),
            shift == (31 - i) as u32,
            bit_x == ((x >> shift) & 1u32) as u64,
            bit_y == ((y >> shift) & 1u32) as u64,
            out_shift == (62 - 2 * i) as u64,
            next == (res | (bit_x << out_shift)) | (bit_y << ((out_shift + 1) as u64)),
    ;
    assert(i + 1 == 32 ==> next == m) by (bit_vector)
        requires
            i < 32u64,
            m == morton_code(x, y),
            res == m & !(0xffff_ffff_ffff_ffffu64 >> (2 * i)),
            shift == (31 - i) as u32,
            bit_x == ((x >> shift) & 1u32) as u64,
            bit_y == ((y >> shift) & 1u32) as u64,
            out_shift == (62 - 2 * i) as u64,
            next == (res | (bit_x << out_shift)) | (bit_y << ((out_shift + 1) as u64)),
    ;
}

/// Interleaves the bits of X and Y into a 64-bit Morton code.
pub fn morton_interleave(x: u32, y: u32) -> (res: u64)
    ensures
        res == morton_code(x, y),
        forall|i: u32|
            i < 32 ==> bit64(res, (2 * i) as u64) == #[trigger] bit32(x, i) && bit64(
                res,
                (2 * i + 1) as u64,
            ) == bit32(y, i),
{
    let mut res = 0u64;
    assert(0u64 == morton_code(x, y) & !(0xffff_ffff_ffff_ffffu64 >> 0u64)) by (bit_vector);
    for i in 0..32u64
        invariant
            i < 32 ==> res == morton_code(x, y) & !(0xffff_ffff_ffff_ffffu64 >> (2 * i)),
            i == 32 ==> res == morton_code(x, y),
    {
        proof {
            lemma_interleave_step(x, y, res, i);
        }
        let shift = (31 - i) as u32;
        let bit_x = ((x >> shift) & 1) as u64;
        let bit_y = ((y >> shift) & 1) as u64;
        // Quadtree quadrant order: Y is the high bit, X is the low bit.
        let out_shift = 62 - 2 * i;
        res |= bit_x << out_shift;
        res |= bit_y << (out_shift + 1);
    }
    proof {
        assert forall|i: u32| i < 32 implies bit64(res, (2 * i) as u64) == #[trigger] bit32(x, i)
            && bit64(res, (2 * i + 1) as u64) == bit32(y, i) by {
            lemma_morton_code_bits(x, y, i);
        }
    }
    res
}

} // verus!
