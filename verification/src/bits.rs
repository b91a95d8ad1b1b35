//! Bit-level helpers on 32-bit words.

use vstd::prelude::*;

verus! {

/// Bit `i` of `x` (bit 0 is the least significant bit).
pub open spec fn bit32(x: u32, i: u32) -> bool {
    (x >> i) & 1u32 == 1u32
}

/// The bit reversal of a 32-bit word, written as the usual network of
/// swaps of adjacent bits, pairs, nibbles, bytes and half-words.
pub open spec fn reversed32(x: u32) -> u32 {
    let a = ((x >> 1u32) & 0x5555_5555u32) | ((x & 0x5555_5555u32) << 1u32);
    let b = ((a >> 2u32) & 0x3333_3333u32) | ((a & 0x3333_3333u32) << 2u32);
    let c = ((b >> 4u32) & 0x0f0f_0f0fu32) | ((b & 0x0f0f_0f0fu32) << 4u32);
    let d = ((c >> 8u32) & 0x00ff_00ffu32) | ((c & 0x00ff_00ffu32) << 8u32);
    (d >> 16u32) | (d << 16u32)
}

/// Bit `i` of the reversal is bit `31 - i` of the word.
pub proof fn lemma_reversed32_bit(x: u32, i: u32)
    requires
        i < 32,
    ensures
        bit32(reversed32(x), i) == bit32(x, (31 - i) as u32),
{
    assert(((reversed32(x) >> i) & 1u32 == 1u32) == ((x >> ((31 - i) as u32)) & 1u32 == 1u32))
        by (bit_vector)
        requires
            i < 32u32,
    ;
}

/// Reversing twice gives the word back.
pub proof fn lemma_reversed32_involution(x: u32)
    ensures
        reversed32(reversed32(x)) == x,
{
    assert(reversed32(reversed32(x)) == x) by (bit_vector);
}

/// Elementary facts on XOR and shifts of 32-bit words.
pub proof fn lemma_u32_xor_shift_facts(a: u32, b: u32, c: u32)
    by (bit_vector)
    ensures
        0u32 ^ a == a,
        a ^ 0u32 == a,
        (a ^ b) ^ c == a ^ (b ^ c),
        (a ^ b) ^ b == a,
        (a | 1u32) % 2 == 1,
        a >> 0u32 == a,
        a & 0xffff_ffffu32 == a,
        (a & 1u32 != 0u32) == (a % 2 == 1),
        a >> 1u32 == a / 2,
{
}

/// A word `x` whose shift `x << i` stays below `2^32` has at most `32 - i`
/// significant bits; halving it makes room for one more shift.
pub proof fn lemma_u32_shift_room(x: u32, i: u32)
    by (bit_vector)
    ensures
        ((x as u64) << 0u64) < 0x1_0000_0000u64,
        i <= 32 && x > 0 && ((x as u64) << (i as u64)) < 0x1_0000_0000u64 ==> i < 32,
        i < 32 && ((x as u64) << (i as u64)) < 0x1_0000_0000u64 ==> (((x / 2) as u64) << ((i
            + 1) as u64)) < 0x1_0000_0000u64,
        i == 31 && ((x as u64) << (i as u64)) < 0x1_0000_0000u64 ==> x / 2 == 0,
        i < 32 ==> (0x8000_0000u32 >> i) >> 1u32 == 0x8000_0000u32 >> ((i + 1) as u32),
{
}

/// Two words agree on their top `32 - s` bits exactly when their reversals
/// agree on their `32 - s` lowest bits.
pub proof fn lemma_reversed32_prefix(a: u32, b: u32, s: u32)
    by (bit_vector)
    requires
        s < 32,
    ensures
        (reversed32(a) & (0xffff_ffffu32 >> s) == reversed32(b) & (0xffff_ffffu32 >> s)) == (a
            >> s == b >> s),
{
}

/// Two words agree on their `32 - s` lowest bits exactly when their
/// reversals agree on their top `32 - s` bits.
pub proof fn lemma_reversed32_suffix(a: u32, b: u32, s: u32)
    requires
        s < 32,
    ensures
        (a & (0xffff_ffffu32 >> s) == b & (0xffff_ffffu32 >> s)) == (reversed32(a) >> s
            == reversed32(b) >> s),
{
    lemma_reversed32_prefix(reversed32(a), reversed32(b), s);
    lemma_reversed32_involution(a);
    lemma_reversed32_involution(b);
}

/// Reverses the order of the bits of a word: the least significant bit
/// becomes the most significant one.
pub fn reverse_bits(x: u32) -> (r: u32)
    ensures
        r == reversed32(x),
        forall|i: u32| i < 32 ==> bit32(r, i) == #[trigger] bit32(x, (31 - i) as u32),
{
    let a = ((x >> 1) & 0x5555_5555) | ((x & 0x5555_5555) << 1);
    let b = ((a >> 2) & 0x3333_3333) | ((a & 0x3333_3333) << 2);
    let c = ((b >> 4) & 0x0f0f_0f0f) | ((b & 0x0f0f_0f0f) << 4);
    let d = ((c >> 8) & 0x00ff_00ff) | ((c & 0x00ff_00ff) << 8);
    let r = (d >> 16) | (d << 16);
    assert forall|i: u32| i < 32 implies bit32(r, i) == #[trigger] bit32(x, (31 - i) as u32) by {
        lemma_reversed32_bit(x, i);
    }
    r
}

} // verus!
