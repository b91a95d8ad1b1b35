//! Seeding and Owen scrambling of 32-bit Sobol coordinates.
//!
//! The scramble is the Laine-Karras hash applied to the bit-reversed word:
//! every step of the hash only lets low bits influence higher bits, so after
//! reversing back every dyadic interval of the input is mapped onto a dyadic
//! interval of the same length (nested uniform scrambling).

use vstd::prelude::*;
use vstd::arithmetic::power2::{
    pow2, lemma_pow2_adds, lemma_pow2_pos, lemma2_to64, lemma_pow2_strictly_increases,
};
use vstd::arithmetic::div_mod::{
    lemma_mod_mod, lemma_mul_mod_noop_left, lemma_add_mod_noop, lemma_mul_mod_noop_general,
    lemma_fundamental_div_mod, lemma_fundamental_div_mod_converse_div,
    lemma_fundamental_div_mod_converse_mod, lemma_mod_multiples_vanish, lemma_mod_pos_bound,
};
use vstd::bits::{lemma_u32_low_bits_mask_is_mod, lemma_u32_shr_is_div, low_bits_mask};
use crate::bits::{
    reversed32, reverse_bits, lemma_reversed32_prefix, lemma_reversed32_suffix,
    lemma_u32_xor_shift_facts,
};

verus! {

/// Golden-ratio constant added to each per-dimension seed.
pub const GOLDEN_RATIO_32: u32 = 0x9e37_79b9u32;

/// The Laine-Karras hash of `x` under `seed`.
pub open spec fn lk_hash_spec(x: u32, seed: u32) -> u32 {
    let x1 = x ^ x.wrapping_mul(0x3d20_adeau32);
    let x2 = x1.wrapping_add(seed);
    let x3 = x2.wrapping_mul((seed >> 16u32) | 1u32);
    let x4 = x3 ^ x3.wrapping_mul(0x0552_6c56u32);
    x4 ^ x4.wrapping_mul(0x53a2_2864u32)
}

/// The scrambling seed of one Sobol dimension, derived from the global seed.
pub open spec fn dim_seed_spec(global_seed: u32, dim: usize) -> u32 {
    lk_hash_spec(global_seed, dim as u32).wrapping_add(GOLDEN_RATIO_32)
}

/// Owen scramble: hash the bit-reversed word and reverse the result back.
pub open spec fn owen_scramble_spec(x: u32, seed: u32) -> u32 {
    reversed32(lk_hash_spec(reversed32(x), seed))
}

/// The 32-bit seed folded from the 64 bits of a floating-point seed:
/// the low half XOR the high half.
pub open spec fn fold_seed_spec(bits: u64) -> u32 {
    (bits ^ (bits >> 32u64)) as u32
}

/// Laine-Karras hash, as used for Owen scrambling.
pub fn lk_hash(x: u32, seed: u32) -> (r: u32)
    ensures
        r == lk_hash_spec(x, seed),
{
    let mut x = x;
    x ^= x.wrapping_mul(0x3d20_adea);
    x = x.wrapping_add(seed);
    x = x.wrapping_mul((seed >> 16) | 1);
    x ^= x.wrapping_mul(0x0552_6c56);
    x ^= x.wrapping_mul(0x53a2_2864);
    x
}

/// Seed of Sobol dimension `dim`, derived from the global seed.
pub fn dim_seed(global_seed: u32, dim: usize) -> (r: u32)
    ensures
        r == dim_seed_spec(global_seed, dim),
{
    lk_hash(global_seed, dim as u32).wrapping_add(GOLDEN_RATIO_32)
}

/// Owen scramble of a 32-bit coordinate.
pub fn owen_scramble(x: u32, seed: u32) -> (r: u32)
    ensures
        r == owen_scramble_spec(x, seed),
{
    let x = reverse_bits(x);
    let x = lk_hash(x, seed);
    reverse_bits(x)
}

/// Folds all 64 bits of a seed (the IEEE 754 bits of a floating-point seed)
/// into 32 bits by XOR of the two halves.
pub fn fold_seed(bits: u64) -> (r: u32)
    ensures
        r == fold_seed_spec(bits),
        r as int == (bits as int % 0x1_0000_0000) as u32 ^ (bits as int / 0x1_0000_0000) as u32,
{
    let r = (bits ^ (bits >> 32)) as u32;
    assert((bits ^ (bits >> 32u64)) as u32 == ((bits % 0x1_0000_0000u64) as u32) ^ ((bits
        / 0x1_0000_0000u64) as u32)) by (bit_vector);
    r
}

/// A zero seed is a valid choice: the dimension seeds that the sampler uses
/// (dimensions 0 and 1) are non-zero for the global seed 0.
pub proof fn lemma_zero_seed_dimension_seeds()
    ensures
        dim_seed_spec(0, 0) == 0x9e37_79b9u32,
        dim_seed_spec(0, 1) == 0x5ab6_ff64u32,
{
    assert(0u32 ^ 0u32 == 0u32 && 1u32 ^ 0x0552_6c56u32 == 0x0552_6c57u32 && 0x0552_6c57u32
        ^ 0xb92d_e9fcu32 == 0xbc7f_85abu32 && (0u32 >> 16u32) | 1u32 == 1u32 && (1u32 >> 16u32)
        | 1u32 == 1u32) by (bit_vector);
    assert(lk_hash_spec(0, 0) == 0u32);
    assert(lk_hash_spec(0, 1) == 0xbc7f_85abu32);
}

// ---------------------------------------------------------------------------
// Low bits determine low bits
// ---------------------------------------------------------------------------

/// `a` and `b` agree on their `k` lowest bits.
pub open spec fn agree_low(a: u32, b: u32, k: nat) -> bool {
    a as int % pow2(k) as int == b as int % pow2(k) as int
}

proof fn lemma_pow2_32()
    ensures
        pow2(32) == 0x1_0000_0000,
{
    lemma2_to64();
}

/// Reduction of a wrapped product modulo `2^k`, `k <= 32`.
proof fn lemma_wrapping_mul_mod(a: u32, c: u32, k: nat)
    requires
        k <= 32,
    ensures
        a.wrapping_mul(c) as int % pow2(k) as int == (a as int * c as int) % pow2(k) as int,
{
    let p = pow2(k) as int;
    let q = pow2((32 - k) as nat) as int;
    lemma_pow2_32();
    lemma_pow2_adds(k, (32 - k) as nat);
    lemma_pow2_pos(k);
    lemma_pow2_pos((32 - k) as nat);
    lemma_mod_mod(a as int * c as int, p, q);
}

proof fn lemma_wrapping_mul_low(a: u32, b: u32, c: u32, k: nat)
    requires
        k <= 32,
        agree_low(a, b, k),
    ensures
        agree_low(a.wrapping_mul(c), b.wrapping_mul(c), k),
{
    let p = pow2(k) as int;
    lemma_pow2_pos(k);
    lemma_wrapping_mul_mod(a, c, k);
    lemma_wrapping_mul_mod(b, c, k);
    lemma_mul_mod_noop_left(a as int, c as int, p);
    lemma_mul_mod_noop_left(b as int, c as int, p);
}

proof fn lemma_wrapping_add_low(a: u32, b: u32, s: u32, k: nat)
    requires
        k <= 32,
        agree_low(a, b, k),
    ensures
        agree_low(a.wrapping_add(s), b.wrapping_add(s), k),
{
    let p = pow2(k) as int;
    let q = pow2((32 - k) as nat) as int;
    lemma_pow2_32();
    lemma_pow2_adds(k, (32 - k) as nat);
    lemma_pow2_pos(k);
    lemma_pow2_pos((32 - k) as nat);
    assert(p * q == 0x1_0000_0000);
    assert(a.wrapping_add(s) as int == (a as int + s as int) % (p * q));
    assert(b.wrapping_add(s) as int == (b as int + s as int) % (p * q));
    lemma_mod_mod(a as int + s as int, p, q);
    lemma_mod_mod(b as int + s as int, p, q);
    lemma_add_mod_noop(a as int, s as int, p);
    lemma_add_mod_noop(b as int, s as int, p);
}

/// With `m` the mask of the `k` lowest bits, masking is reduction modulo `2^k`.
proof fn lemma_low_mask_is_mod(x: u32, k: nat)
    requires
        1 <= k <= 32,
    ensures
        (x & (0xffff_ffffu32 >> ((32 - k) as u32))) as int == x as int % pow2(k) as int,
{
    lemma_pow2_32();
    let s = (32 - k) as u32;
    if k == 32 {
        assert(x & (0xffff_ffffu32 >> 0u32) == x) by (bit_vector);
    } else {
        lemma_u32_low_bits_mask_is_mod(x, k);
        lemma_u32_shr_is_div(0xffff_ffffu32, s);
        lemma_pow2_adds(k, s as nat);
        lemma_pow2_pos(k);
        lemma_pow2_pos(s as nat);
        let p = pow2(k) as int;
        let d = pow2(s as nat) as int;
        assert(p * d == 0x1_0000_0000);
        assert((p - 1) * d == p * d - d) by (nonlinear_arith);
        lemma_fundamental_div_mod_converse_div(0xffff_ffff, d, p - 1, d - 1);
        assert(low_bits_mask(k) == p - 1);
        lemma_pow2_strictly_increases(k, 32);
    }
}

proof fn lemma_xor_low(a: u32, b: u32, c: u32, d: u32, k: nat)
    requires
        k <= 32,
        agree_low(a, b, k),
        agree_low(c, d, k),
    ensures
        agree_low(a ^ c, b ^ d, k),
{
    if k == 0 {
        assert(pow2(0) == 1) by {
            lemma2_to64();
        }
    } else {
        let m = 0xffff_ffffu32 >> ((32 - k) as u32);
        lemma_low_mask_is_mod(a, k);
        lemma_low_mask_is_mod(b, k);
        lemma_low_mask_is_mod(c, k);
        lemma_low_mask_is_mod(d, k);
        lemma_low_mask_is_mod(a ^ c, k);
        lemma_low_mask_is_mod(b ^ d, k);
        assert((a ^ c) & m == (a & m) ^ (c & m)) by (bit_vector);
        assert((b ^ d) & m == (b & m) ^ (d & m)) by (bit_vector);
    }
}

proof fn lemma_xor_mul_low(a: u32, b: u32, c: u32, k: nat)
    requires
        k <= 32,
        agree_low(a, b, k),
    ensures
        agree_low(a ^ a.wrapping_mul(c), b ^ b.wrapping_mul(c), k),
{
    lemma_wrapping_mul_low(a, b, c, k);
    lemma_xor_low(a, b, a.wrapping_mul(c), b.wrapping_mul(c), k);
}

/// The `k` lowest bits of the Laine-Karras hash depend only on the `k`
/// lowest bits of its input.
pub proof fn lemma_lk_hash_low_bits(x: u32, y: u32, seed: u32, k: nat)
    requires
        k <= 32,
        agree_low(x, y, k),
    ensures
        agree_low(lk_hash_spec(x, seed), lk_hash_spec(y, seed), k),
{
    lemma_xor_mul_low(x, y, 0x3d20_adeau32, k);
    let x1 = x ^ x.wrapping_mul(0x3d20_adeau32);
    let y1 = y ^ y.wrapping_mul(0x3d20_adeau32);
    lemma_wrapping_add_low(x1, y1, seed, k);
    let x2 = x1.wrapping_add(seed);
    let y2 = y1.wrapping_add(seed);
    lemma_wrapping_mul_low(x2, y2, (seed >> 16u32) | 1u32, k);
    let x3 = x2.wrapping_mul((seed >> 16u32) | 1u32);
    let y3 = y2.wrapping_mul((seed >> 16u32) | 1u32);
    lemma_xor_mul_low(x3, y3, 0x0552_6c56u32, k);
    let x4 = x3 ^ x3.wrapping_mul(0x0552_6c56u32);
    let y4 = y3 ^ y3.wrapping_mul(0x0552_6c56u32);
    lemma_xor_mul_low(x4, y4, 0x53a2_2864u32, k);
}

/// Nested scrambling: two words that share their top `32 - s` bits are
/// scrambled to two words that share their top `32 - s` bits, so each
/// dyadic interval of length `2^s` is mapped onto a dyadic interval of the
/// same length.
pub proof fn lemma_owen_scramble_nested(x: u32, y: u32, seed: u32, s: u32)
    requires
        s < 32,
        x >> s == y >> s,
    ensures
        owen_scramble_spec(x, seed) >> s == owen_scramble_spec(y, seed) >> s,
{
    let k = (32 - s) as nat;
    let m = 0xffff_ffffu32 >> s;
    assert((32 - k) as u32 == s);
    let rx = reversed32(x);
    let ry = reversed32(y);
    assert(rx & m == ry & m) by {
        lemma_reversed32_prefix(x, y, s);
    }
    assert(agree_low(rx, ry, k)) by {
        lemma_low_mask_is_mod(rx, k);
        lemma_low_mask_is_mod(ry, k);
    }
    lemma_lk_hash_low_bits(rx, ry, seed, k);
    let hx = lk_hash_spec(rx, seed);
    let hy = lk_hash_spec(ry, seed);
    assert(hx & m == hy & m) by {
        lemma_low_mask_is_mod(hx, k);
        lemma_low_mask_is_mod(hy, k);
    }
    assert(reversed32(hx) >> s == reversed32(hy) >> s) by {
        lemma_reversed32_suffix(hx, hy, s);
    }
}

// ---------------------------------------------------------------------------
// Low bits of the hash determine low bits of its input
// ---------------------------------------------------------------------------

proof fn lemma_pow2_double(k: nat)
    ensures
        pow2(k + 1) == 2 * pow2(k),
        pow2(k) > 0,
{
    lemma_pow2_adds(k, 1);
    lemma2_to64();
    lemma_pow2_pos(k);
}

proof fn lemma_agree_zero(a: u32, b: u32)
    ensures
        agree_low(a, b, 0),
{
    lemma2_to64();
}

proof fn lemma_agree_monotone(a: u32, b: u32, k: nat)
    requires
        agree_low(a, b, k + 1),
    ensures
        agree_low(a, b, k),
{
    lemma_pow2_double(k);
    lemma_mod_mod(a as int, pow2(k) as int, 2);
    lemma_mod_mod(b as int, pow2(k) as int, 2);
}

/// An even multiplier carries agreement on `k` low bits to `k + 1` bits.
proof fn lemma_even_mul_extends(a: u32, b: u32, c: u32, k: nat)
    requires
        k < 32,
        c % 2 == 0,
        agree_low(a, b, k),
    ensures
        agree_low(a.wrapping_mul(c), b.wrapping_mul(c), k + 1),
{
    lemma_pow2_double(k);
    let p = pow2(k) as int;
    let pp = pow2(k + 1) as int;
    lemma_wrapping_mul_mod(a, c, k + 1);
    lemma_wrapping_mul_mod(b, c, k + 1);
    let r = a as int % p;
    let qa = a as int / p;
    let qb = b as int / p;
    let h = c as int / 2;
    lemma_fundamental_div_mod(a as int, p);
    lemma_fundamental_div_mod(b as int, p);
    assert(c as int == 2 * h);
    assert(a as int * c as int == pp * (qa * h) + r * c) by (nonlinear_arith)
        requires
            a as int == p * qa + r,
            c as int == 2 * h,
            pp == 2 * p,
    ;
    assert(b as int * c as int == pp * (qb * h) + r * c) by (nonlinear_arith)
        requires
            b as int == p * qb + r,
            c as int == 2 * h,
            pp == 2 * p,
    ;
    lemma_mod_multiples_vanish(qa * h, r * c, pp);
    lemma_mod_multiples_vanish(qb * h, r * c, pp);
}

proof fn lemma_xor_mul_even_converse(a: u32, b: u32, c: u32, k: nat)
    requires
        k <= 32,
        c % 2 == 0,
        agree_low(a ^ a.wrapping_mul(c), b ^ b.wrapping_mul(c), k),
    ensures
        agree_low(a, b, k),
    decreases k,
{
    if k == 0 {
        lemma_agree_zero(a, b);
    } else {
        let j = (k - 1) as nat;
        let wa = a.wrapping_mul(c);
        let wb = b.wrapping_mul(c);
        lemma_agree_monotone(a ^ wa, b ^ wb, j);
        lemma_xor_mul_even_converse(a, b, c, j);
        lemma_even_mul_extends(a, b, c, j);
        lemma_xor_low(a ^ wa, b ^ wb, wa, wb, k);
        lemma_u32_xor_shift_facts(a, wa, 0);
        lemma_u32_xor_shift_facts(b, wb, 0);
    }
}

proof fn lemma_wrapping_add_converse(a: u32, b: u32, s: u32, k: nat)
    requires
        k <= 32,
        agree_low(a.wrapping_add(s), b.wrapping_add(s), k),
    ensures
        agree_low(a, b, k),
{
    let t = 0u32.wrapping_sub(s);
    assert(a.wrapping_add(s).wrapping_add(t) == a);
    assert(b.wrapping_add(s).wrapping_add(t) == b);
    lemma_wrapping_add_low(a.wrapping_add(s), b.wrapping_add(s), t, k);
}

/// Adding half the modulus changes the residue.
proof fn lemma_add_half_modulus(z: int, p: int)
    requires
        p > 0,
    ensures
        (p + z) % (2 * p) != z % (2 * p),
{
    let m = z % (2 * p);
    let q = z / (2 * p);
    lemma_fundamental_div_mod(z, 2 * p);
    assert(0 <= m < 2 * p);
    assert(z == q * (2 * p) + m) by (nonlinear_arith)
        requires
            z == (2 * p) * q + m,
    ;
    if m < p {
        lemma_fundamental_div_mod_converse_mod(p + z, 2 * p, q, p + m);
    } else {
        assert(p + z == (q + 1) * (2 * p) + (m - p)) by (nonlinear_arith)
            requires
                z == q * (2 * p) + m,
        ;
        lemma_fundamental_div_mod_converse_mod(p + z, 2 * p, q + 1, m - p);
    }
}

proof fn lemma_odd_mul_converse(a: u32, b: u32, c: u32, k: nat)
    requires
        k <= 32,
        c % 2 == 1,
        agree_low(a.wrapping_mul(c), b.wrapping_mul(c), k),
    ensures
        agree_low(a, b, k),
    decreases k,
{
    if k == 0 {
        lemma_agree_zero(a, b);
    } else {
        let j = (k - 1) as nat;
        lemma_agree_monotone(a.wrapping_mul(c), b.wrapping_mul(c), j);
        lemma_odd_mul_converse(a, b, c, j);
        lemma_pow2_double(j);
        let p = pow2(j) as int;
        let pp = pow2(k) as int;
        lemma_wrapping_mul_mod(a, c, k);
        lemma_wrapping_mul_mod(b, c, k);
        let r = a as int % p;
        let qa = a as int / p;
        let qb = b as int / p;
        lemma_fundamental_div_mod(a as int, p);
        lemma_fundamental_div_mod(b as int, p);
        let u = qa * c as int;
        let w = qb * c as int;
        lemma_fundamental_div_mod(u, 2);
        lemma_fundamental_div_mod(w, 2);
        lemma_mod_pos_bound(u, 2);
        lemma_mod_pos_bound(w, 2);
        lemma_mod_pos_bound(qa, 2);
        lemma_mod_pos_bound(qb, 2);
        assert(a as int * c as int == pp * (u / 2) + ((u % 2) * p + r * c)) by (nonlinear_arith)
            requires
                a as int == p * qa + r,
                u == qa * c,
                u == 2 * (u / 2) + u % 2,
                pp == 2 * p,
        ;
        assert(b as int * c as int == pp * (w / 2) + ((w % 2) * p + r * c)) by (nonlinear_arith)
            requires
                b as int == p * qb + r,
                w == qb * c,
                w == 2 * (w / 2) + w % 2,
                pp == 2 * p,
        ;
        lemma_mod_multiples_vanish(u / 2, (u % 2) * p + r * c, pp);
        lemma_mod_multiples_vanish(w / 2, (w % 2) * p + r * c, pp);
        lemma_mul_mod_noop_general(qa, c as int, 2);
        lemma_mul_mod_noop_general(qb, c as int, 2);
        assert(u % 2 == qa % 2);
        assert(w % 2 == qb % 2);
        assert((a as int * c as int) % pp == (b as int * c as int) % pp);
        if qa % 2 != qb % 2 {
            lemma_add_half_modulus(r * c, p);
            if u % 2 == 1 {
                assert(w % 2 == 0);
                assert((u % 2) * p + r * c == p + r * c);
                assert((w % 2) * p + r * c == r * c);
            } else {
                assert(w % 2 == 1);
                assert((w % 2) * p + r * c == p + r * c);
                assert((u % 2) * p + r * c == r * c);
            }
            assert(false);
        }
        assert(0 <= (qa % 2) * p + r < pp) by {
            let e = qa % 2;
            assert(0 <= e * p <= p) by (nonlinear_arith)
                requires
                    0 <= e <= 1,
                    p > 0,
            ;
        }
        lemma_fundamental_div_mod(qa, 2);
        lemma_fundamental_div_mod(qb, 2);
        assert(a as int == pp * (qa / 2) + ((qa % 2) * p + r)) by (nonlinear_arith)
            requires
                a as int == p * qa + r,
                qa == 2 * (qa / 2) + qa % 2,
                pp == 2 * p,
        ;
        assert(b as int == pp * (qb / 2) + ((qb % 2) * p + r)) by (nonlinear_arith)
            requires
                b as int == p * qb + r,
                qb == 2 * (qb / 2) + qb % 2,
                pp == 2 * p,
        ;
        lemma_fundamental_div_mod_converse_mod(a as int, pp, qa / 2, (qa % 2) * p + r);
        lemma_fundamental_div_mod_converse_mod(b as int, pp, qb / 2, (qb % 2) * p + r);
    }
}

/// The converse of `lemma_lk_hash_low_bits`: hashes that agree on their `k`
/// lowest bits come from inputs that agree on their `k` lowest bits. With
/// `k = 32`, the hash is one-to-one.
pub proof fn lemma_lk_hash_low_bits_converse(x: u32, y: u32, seed: u32, k: nat)
    requires
        k <= 32,
        agree_low(lk_hash_spec(x, seed), lk_hash_spec(y, seed), k),
    ensures
        agree_low(x, y, k),
{
    let m = (seed >> 16u32) | 1u32;
    lemma_u32_xor_shift_facts(seed >> 16u32, 0, 0);
    let x1 = x ^ x.wrapping_mul(0x3d20_adeau32);
    let y1 = y ^ y.wrapping_mul(0x3d20_adeau32);
    let x2 = x1.wrapping_add(seed);
    let y2 = y1.wrapping_add(seed);
    let x3 = x2.wrapping_mul(m);
    let y3 = y2.wrapping_mul(m);
    let x4 = x3 ^ x3.wrapping_mul(0x0552_6c56u32);
    let y4 = y3 ^ y3.wrapping_mul(0x0552_6c56u32);
    lemma_xor_mul_even_converse(x4, y4, 0x53a2_2864u32, k);
    lemma_xor_mul_even_converse(x3, y3, 0x0552_6c56u32, k);
    lemma_odd_mul_converse(x2, y2, m, k);
    lemma_wrapping_add_converse(x1, y1, seed, k);
    lemma_xor_mul_even_converse(x, y, 0x3d20_adeau32, k);
}

#[verifier::rlimit(40)]
proof fn lemma_owen_scramble_nested_converse(x: u32, y: u32, seed: u32, s: u32)
    requires
        s < 32,
        owen_scramble_spec(x, seed) >> s == owen_scramble_spec(y, seed) >> s,
    ensures
        x >> s == y >> s,
{
    let k = (32 - s) as nat;
    let m = 0xffff_ffffu32 >> s;
    assert((32 - k) as u32 == s);
    let rx = reversed32(x);
    let ry = reversed32(y);
    let hx = lk_hash_spec(rx, seed);
    let hy = lk_hash_spec(ry, seed);
    assert(hx & m == hy & m) by {
        lemma_reversed32_suffix(hx, hy, s);
    }
    assert(agree_low(hx, hy, k)) by {
        lemma_low_mask_is_mod(hx, k);
        lemma_low_mask_is_mod(hy, k);
    }
    lemma_lk_hash_low_bits_converse(rx, ry, seed, k);
    assert(rx & m == ry & m) by {
        lemma_low_mask_is_mod(rx, k);
        lemma_low_mask_is_mod(ry, k);
    }
    assert(x >> s == y >> s) by {
        lemma_reversed32_prefix(x, y, s);
    }
}

/// Owen scrambling permutes the dyadic intervals of every length: two
/// words share their top `32 - s` bits exactly when their scrambles do.
pub proof fn lemma_owen_scramble_intervals(x: u32, y: u32, seed: u32, s: u32)
    requires
        s < 32,
    ensures
        (owen_scramble_spec(x, seed) >> s == owen_scramble_spec(y, seed) >> s) == (x >> s == y
            >> s),
{
    if x >> s == y >> s {
        lemma_owen_scramble_nested(x, y, seed, s);
    }
    if owen_scramble_spec(x, seed) >> s == owen_scramble_spec(y, seed) >> s {
        lemma_owen_scramble_nested_converse(x, y, seed, s);
    }
}

/// Owen scrambling is a permutation of the 32-bit words for every seed.
pub proof fn lemma_owen_scramble_injective(x: u32, y: u32, seed: u32)
    requires
        owen_scramble_spec(x, seed) == owen_scramble_spec(y, seed),
    ensures
        x == y,
{
    lemma_owen_scramble_intervals(x, y, seed, 0);
    lemma_u32_xor_shift_facts(x, 0, 0);
    lemma_u32_xor_shift_facts(y, 0, 0);
    lemma_u32_xor_shift_facts(owen_scramble_spec(x, seed), 0, 0);
    lemma_u32_xor_shift_facts(owen_scramble_spec(y, seed), 0, 0);
}

} // verus!
