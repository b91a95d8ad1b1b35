//! The integer core of the sampler: sample size check and the 53-bit
//! position of every point along the Morton curve.

use vstd::prelude::*;
use crate::hash::{
    dim_seed, dim_seed_spec, fold_seed, fold_seed_spec, owen_scramble, owen_scramble_spec,
    lemma_owen_scramble_intervals,
};
use crate::morton::{
    morton_code, morton_interleave, lemma_morton_code_prefix, lemma_morton_code_injective,
};
use crate::sobol::{sobol_point, sobol_raw};

verus! {

/// Why a sample cannot be drawn.
#[derive(Debug, Clone, Copy, PartialEq, Eq, Structural)]
pub enum SamplingError {
    /// The requested sample size is zero.
    ZeroSampleSize,
    /// The geometry holds a part that is neither a polygon nor a multipolygon.
    NotPolygonal,
    /// The bytes are not well-formed WKB.
    WkbParseFailed,
    /// The WKB holds an empty point, which has no geometry value.
    EmptyPoint,
}

impl SamplingError {
    /// The message reported to the user.
    pub fn message(&self) -> (m: &'static str)
        ensures
            *self == SamplingError::ZeroSampleSize ==> m@ == "n must be >= 1"@,
            *self == SamplingError::NotPolygonal ==> m@ == "Must be a POLYGON or MULTIPOLYGON"@,
            *self == SamplingError::WkbParseFailed ==> m@ == "WKB parse failed"@,
            *self == SamplingError::EmptyPoint ==> m@
                == "geo-types does not support empty point or a MultiPoint containing empty points."@,
    {
        match self {
            SamplingError::ZeroSampleSize => "n must be >= 1",
            SamplingError::NotPolygonal => "Must be a POLYGON or MULTIPOLYGON",
            SamplingError::WkbParseFailed => "WKB parse failed",
            SamplingError::EmptyPoint => {
                "geo-types does not support empty point or a MultiPoint containing empty points."
            },
        }
    }
}

/// Number of low bits of the 64-bit Morton code dropped to keep 53 bits,
/// the precision of a double.
pub const KEY_SHIFT: u64 = 11;

/// The 53-bit curve position of Sobol point `index`: both coordinates are
/// Owen scrambled with their own dimension seed and interleaved into a
/// Morton code, of which the top 53 bits are kept.
pub open spec fn point_key(index: u32, seed: u32) -> u64 {
    scrambled_code(index, seed) >> KEY_SHIFT
}

/// The full 64-bit Morton code of scrambled Sobol point `index`, with the
/// dimension seeds that the sampler derives from `seed`.
pub open spec fn scrambled_code(index: u32, seed: u32) -> u64 {
    scrambled_code_with(index, dim_seed_spec(seed, 0), dim_seed_spec(seed, 1))
}

/// The Morton code of Sobol point `index` with its two coordinates Owen
/// scrambled under the seeds `sx` and `sy`.
pub open spec fn scrambled_code_with(index: u32, sx: u32, sy: u32) -> u64 {
    morton_code(
        owen_scramble_spec(sobol_point(index, 0), sx),
        owen_scramble_spec(sobol_point(index, 1), sy),
    )
}

/// Two points lie in the same quadtree cell at depth `k = 32 - t` (their
/// scrambled Morton codes share the top `2k` bits) exactly when their
/// unscrambled Sobol coordinates lie in the same dyadic intervals of length
/// `2^-k`, whatever the two scrambling seeds: scrambling permutes the cells
/// of every depth.
pub proof fn lemma_cell_matches_intervals(i: u32, j: u32, sx: u32, sy: u32, t: u32)
    requires
        t < 32,
    ensures
        (scrambled_code_with(i, sx, sy) >> ((2 * t) as u64) == scrambled_code_with(j, sx, sy) >> ((2
            * t) as u64)) == (sobol_point(i, 0) >> t == sobol_point(j, 0) >> t && sobol_point(i, 1)
            >> t == sobol_point(j, 1) >> t),
{
    lemma_owen_scramble_intervals(sobol_point(i, 0), sobol_point(j, 0), sx, t);
    lemma_owen_scramble_intervals(sobol_point(i, 1), sobol_point(j, 1), sy, t);
    let xi = owen_scramble_spec(sobol_point(i, 0), sx);
    let yi = owen_scramble_spec(sobol_point(i, 1), sy);
    let xj = owen_scramble_spec(sobol_point(j, 0), sx);
    let yj = owen_scramble_spec(sobol_point(j, 1), sy);
    lemma_morton_code_prefix(xi, yi, t);
    lemma_morton_code_prefix(xj, yj, t);
    lemma_morton_code_injective(xi >> t, yi >> t, xj >> t, yj >> t);
}

/// The keys of the first `n` points for a 64-bit seed.
pub open spec fn sequence_keys_spec(n: nat, seed_bits: u64) -> Seq<u64> {
    Seq::new(n, |i: int| point_key(i as u32, fold_seed_spec(seed_bits)))
}

/// The checked sample size: zero points cannot be drawn.
pub fn sample_size(n: i32) -> (r: Result<usize, SamplingError>)
    requires
        n >= 0,
    ensures
        n == 0 ==> r == Err::<usize, SamplingError>(SamplingError::ZeroSampleSize),
        n > 0 ==> r == Ok::<usize, SamplingError>(n as usize),
{
    if n == 0 {
        Err(SamplingError::ZeroSampleSize)
    } else {
        Ok(n as usize)
    }
}

proof fn lemma_key_bound(m: u64)
    by (bit_vector)
    ensures
        m >> 11u64 < 0x20_0000_0000_0000u64,
{
}

/// The curve positions of the first `n` Sobol points under the seed whose
/// 64 bits are `seed_bits`. Each key is below `2^53`, so it converts exactly
/// to a fraction of the unit interval.
pub fn sequence_keys(n: usize, seed_bits: u64) -> (keys: Vec<u64>)
    requires
        n <= 0x1_0000_0000,
    ensures
        keys@ == sequence_keys_spec(n as nat, seed_bits),
        keys@.len() == n,
        forall|i: int| 0 <= i < n ==> #[trigger] keys@[i] == point_key(i as u32, fold_seed_spec(seed_bits)),
        forall|i: int| 0 <= i < n ==> #[trigger] keys@[i] < 0x20_0000_0000_0000u64,
{
    let seed = fold_seed(seed_bits);
    let seed_x = dim_seed(seed, 0);
    let seed_y = dim_seed(seed, 1);
    let mut keys: Vec<u64> = Vec::with_capacity(n);
    for i in 0..n
        invariant
            n <= 0x1_0000_0000,
            seed == fold_seed_spec(seed_bits),
            seed_x == dim_seed_spec(seed, 0),
            seed_y == dim_seed_spec(seed, 1),
            keys@.len() == i,
            forall|j: int| 0 <= j < i ==> #[trigger] keys@[j] == point_key(j as u32, seed),
            forall|j: int| 0 <= j < i ==> #[trigger] keys@[j] < 0x20_0000_0000_0000u64,
    {
        let raw_x = sobol_raw(i as u32, 0);
        let raw_y = sobol_raw(i as u32, 1);
        let sx = owen_scramble(raw_x, seed_x);
        let sy = owen_scramble(raw_y, seed_y);
        let m64 = morton_interleave(sx, sy);
        proof {
            lemma_key_bound(m64);
        }
        keys.push(m64 >> KEY_SHIFT);
    }
    assert(keys@ =~= sequence_keys_spec(n as nat, seed_bits));
    keys
}

/// Key `i` of a sample is the key of Sobol point `i` itself: the Morton code
/// of its two Owen-scrambled coordinates under the dimension seeds of the
/// folded seed, top 53 bits kept, for every `i` below the sample size.
pub proof fn lemma_sequence_key_of_point(n: nat, seed_bits: u64, i: int)
    requires
        0 <= i < n,
    ensures
        sequence_keys_spec(n, seed_bits).len() == n,
        sequence_keys_spec(n, seed_bits)[i] == point_key(i as u32, fold_seed_spec(seed_bits)),
        sequence_keys_spec(n, seed_bits)[i] == morton_code(
            owen_scramble_spec(sobol_point(i as u32, 0), dim_seed_spec(fold_seed_spec(seed_bits), 0)),
            owen_scramble_spec(sobol_point(i as u32, 1), dim_seed_spec(fold_seed_spec(seed_bits), 1)),
        ) >> 11u64,
{
}

/// Prefix stability (the master sample property): the first `m` keys of a
/// sample of `n >= m` points are the keys of the sample of `m` points.
pub proof fn lemma_sequence_keys_prefix_stable(m: nat, n: nat, seed_bits: u64)
    requires
        m <= n,
    ensures
        sequence_keys_spec(m, seed_bits) == sequence_keys_spec(n, seed_bits).take(m as int),
{
    assert(sequence_keys_spec(m, seed_bits) =~= sequence_keys_spec(n, seed_bits).take(m as int));
}

} // verus!
